//! Math written in LaTeX: the outlines it is drawn in, and how they are written as SVG.

use crate::export::{escape_html, escaped};
use crate::text::{
    begins, chars_of, contains, cut_end, decimal, drop_end, holds, push_decimal, same, starts_with,
    text_of,
};
use vstd::prelude::*;
use vstd::string::*;

verus! {

/// A piece of a path, over a type of points `P`.
#[derive(Debug, PartialEq)]
pub enum Segment<P> {
    Move(P),
    Line(P),
    Quad(P, P),
    Cubic(P, P, P),
    Close,
}

/// A curve of the outline of a character, with the points it starts and ends at.
#[derive(Debug, PartialEq)]
pub enum Curve<P> {
    Line(P, P),
    Quad(P, P, P),
    Cubic(P, P, P, P),
}

impl<P> Curve<P> {
    /// Where the curve starts.
    pub open spec fn start(self) -> P {
        match self {
            Curve::Line(from, _) => from,
            Curve::Quad(from, _, _) => from,
            Curve::Cubic(from, _, _, _) => from,
        }
    }

    /// The piece of a path that draws the curve from where it starts.
    pub open spec fn drawn(self) -> Segment<P> {
        match self {
            Curve::Line(_, to) => Segment::Line(to),
            Curve::Quad(_, control, to) => Segment::Quad(control, to),
            Curve::Cubic(_, first, second, to) => Segment::Cubic(first, second, to),
        }
    }
}

/// The path of the first `n` curves, whose last contour is still open. A contour that is over
/// is closed before the next one starts, where a curve does not start where the one before it
/// ended, which `joined` tells.
pub open spec fn contours<P>(curves: Seq<Curve<P>>, joined: Seq<bool>, n: int) -> Seq<Segment<P>>
    decreases n,
{
    if n <= 0 {
        Seq::empty()
    } else {
        let before = contours(curves, joined, n - 1);
        let curve = curves[n - 1];
        if n == 1 {
            seq![Segment::Move(curve.start()), curve.drawn()]
        } else if n - 1 < joined.len() && joined[n - 1] {
            before.push(curve.drawn())
        } else {
            before + seq![Segment::Close, Segment::Move(curve.start()), curve.drawn()]
        }
    }
}

/// The path of an outline.
pub open spec fn outline_path<P>(curves: Seq<Curve<P>>, joined: Seq<bool>) -> Seq<Segment<P>> {
    if curves.len() == 0 {
        Seq::empty()
    } else {
        contours(curves, joined, curves.len() as int).push(Segment::Close)
    }
}

/// The path of an outline of these curves. `joined` tells of each whether it starts where the
/// one before it ended. A character without an outline, such as a space, draws nothing.
pub fn outline<P: Copy>(curves: &Vec<Curve<P>>, joined: &Vec<bool>) -> (path: Vec<Segment<P>>)
    ensures
        path@ == outline_path(curves@, joined@),
{
    let mut path: Vec<Segment<P>> = Vec::new();
    for i in 0..curves.len()
        invariant
            path@ == contours(curves@, joined@, i as int),
    {
        let ghost before = path@;
        let (start, drawn) = match curves[i] {
            Curve::Line(from, to) => (from, Segment::Line(to)),
            Curve::Quad(from, control, to) => (from, Segment::Quad(control, to)),
            Curve::Cubic(from, first, second, to) => (from, Segment::Cubic(first, second, to)),
        };
        let goes_on = i > 0 && i < joined.len() && joined[i];
        if !goes_on {
            if i > 0 {
                path.push(Segment::Close);
            }
            path.push(Segment::Move(start));
        }
        path.push(drawn);
        proof {
            assert(path@ =~= contours(curves@, joined@, i + 1));
        }
    }
    if curves.len() > 0 {
        path.push(Segment::Close);
    }
    path
}

/// Whether every contour of a path is closed before the next one starts, given whether one is
/// open, and the last one is open or not.
pub open spec fn contours_close<P>(path: Seq<Segment<P>>, open: bool) -> bool
    decreases path.len(),
{
    if path.len() == 0 {
        !open
    } else {
        match path.last() {
            Segment::Move(_) => open && contours_close(path.drop_last(), false),
            Segment::Close => !open && contours_close(path.drop_last(), true),
            _ => open && contours_close(path.drop_last(), true),
        }
    }
}

/// An outline that draws anything has an open contour until its last one is closed.
proof fn contours_stay_open<P>(curves: Seq<Curve<P>>, joined: Seq<bool>, n: int)
    requires
        0 < n <= curves.len(),
    ensures
        contours_close(contours(curves, joined, n), true),
    decreases n,
{
    let path = contours(curves, joined, n);
    let curve = curves[n - 1];
    if n == 1 {
        let moved = seq![Segment::Move(curve.start())];
        assert(moved.drop_last() =~= Seq::<Segment<P>>::empty());
        assert(contours_close(moved.drop_last(), false));
        assert(contours_close(moved, true));
        assert(path.drop_last() =~= moved);
    } else {
        contours_stay_open(curves, joined, n - 1);
        let before = contours(curves, joined, n - 1);
        if n - 1 < joined.len() && joined[n - 1] {
            assert(path.drop_last() =~= before);
        } else {
            let closed = before.push(Segment::Close);
            assert(closed.drop_last() =~= before);
            assert(contours_close(closed, false));
            let moved = closed.push(Segment::Move(curve.start()));
            assert(moved.drop_last() =~= closed);
            assert(contours_close(moved, true));
            assert(path.drop_last() =~= moved);
        }
    }
}

/// Every contour of a character is started and closed.
pub proof fn outlines_are_closed<P>(curves: Seq<Curve<P>>, joined: Seq<bool>)
    ensures
        contours_close(outline_path(curves, joined), false),
{
    let path = outline_path(curves, joined);
    if curves.len() > 0 {
        contours_stay_open(curves, joined, curves.len() as int);
        assert(path.drop_last() =~= contours(curves, joined, curves.len() as int));
    }
}

/// A piece of a formula that is laid out, over a type of points `P` and of colours `C`.
#[derive(Debug, PartialEq)]
pub enum Item<P, C> {
    /// A character, with its outline in the fonts of math, and where they do not have it, in a
    /// font of the system, if that has it.
    Character {
        own: Option<Vec<Segment<P>>>,
        system: Option<Vec<Segment<P>>>,
        color: Option<C>,
    },
    /// A rule or a box, with its corners clockwise from the top left one.
    Box { corners: [P; 4], color: Option<C> },
    /// A path, filled or stroked.
    Path { path: Vec<Segment<P>>, filled: bool, color: Option<C> },
}

/// A path to fill or stroke, as contracts speak of it.
pub struct DrawingView<P, C> {
    pub path: Seq<Segment<P>>,
    pub stroked: bool,
    pub color: Option<C>,
}

/// A path to fill or stroke, in the colour the formula gives it, or else in the colour of the
/// text.
#[derive(Debug, PartialEq)]
pub struct Drawing<P, C> {
    pub path: Vec<Segment<P>>,
    pub stroked: bool,
    pub color: Option<C>,
}

impl<P, C> View for Drawing<P, C> {
    type V = DrawingView<P, C>;

    open spec fn view(&self) -> DrawingView<P, C> {
        DrawingView { path: self.path@, stroked: self.stroked, color: self.color }
    }
}

/// The corners of a rectangle as a path.
pub open spec fn rectangle_path<P>(corners: Seq<P>) -> Seq<Segment<P>> {
    seq![
        Segment::Move(corners[0]),
        Segment::Line(corners[1]),
        Segment::Line(corners[2]),
        Segment::Line(corners[3]),
        Segment::Close,
    ]
}

/// The corners of a rectangle as a path, clockwise from its top left one.
pub fn rectangle<P: Copy>(corners: [P; 4]) -> (path: Vec<Segment<P>>)
    ensures
        path@ == rectangle_path(corners@),
{
    let mut path: Vec<Segment<P>> = Vec::new();
    path.push(Segment::Move(corners[0]));
    path.push(Segment::Line(corners[1]));
    path.push(Segment::Line(corners[2]));
    path.push(Segment::Line(corners[3]));
    path.push(Segment::Close);
    path
}

impl<P, C> Item<P, C> {
    /// What draws the piece, or `None` for a character no font has.
    pub open spec fn drawn(self) -> Option<DrawingView<P, C>> {
        match self {
            Item::Character { own: Some(path), color, .. } => Some(
                DrawingView { path: path@, stroked: false, color },
            ),
            Item::Character { own: None, system: Some(path), color } => Some(
                DrawingView { path: path@, stroked: false, color },
            ),
            Item::Character { own: None, system: None, .. } => None,
            Item::Box { corners, color } => Some(
                DrawingView { path: rectangle_path(corners@), stroked: false, color },
            ),
            Item::Path { path, filled, color } => Some(
                DrawingView { path: path@, stroked: !filled, color },
            ),
        }
    }
}

/// A copy of a path.
fn copy_path<P: Copy>(path: &Vec<Segment<P>>) -> (copy: Vec<Segment<P>>)
    ensures
        copy@ == path@,
{
    let mut copy: Vec<Segment<P>> = Vec::new();
    for i in 0..path.len()
        invariant
            copy@ == path@.take(i as int),
    {
        copy.push(
            match &path[i] {
                Segment::Move(to) => Segment::Move(*to),
                Segment::Line(to) => Segment::Line(*to),
                Segment::Quad(control, to) => Segment::Quad(*control, *to),
                Segment::Cubic(first, second, to) => Segment::Cubic(*first, *second, *to),
                Segment::Close => Segment::Close,
            },
        );
        proof {
            assert(copy@ =~= path@.take(i + 1));
        }
    }
    proof {
        assert(path@.take(path@.len() as int) =~= path@);
    }
    copy
}

/// What draws a piece of a formula, or `None` for a character no font has.
fn drawing<P: Copy, C: Copy>(item: &Item<P, C>) -> (drawing: Option<Drawing<P, C>>)
    ensures
        match drawing {
            Some(drawing) => item.drawn() == Some(drawing@),
            None => item.drawn() is None,
        },
{
    match item {
        Item::Character { own: Some(path), color, .. } => Some(
            Drawing { path: copy_path(path), stroked: false, color: *color },
        ),
        Item::Character { own: None, system: Some(path), color } => Some(
            Drawing { path: copy_path(path), stroked: false, color: *color },
        ),
        Item::Character { own: None, system: None, .. } => None,
        Item::Box { corners, color } => Some(
            Drawing { path: rectangle(*corners), stroked: false, color: *color },
        ),
        Item::Path { path, filled, color } => Some(
            Drawing { path: copy_path(path), stroked: !*filled, color: *color },
        ),
    }
}

/// What draws a formula that is laid out in these pieces, in their order. `None` if it holds a
/// character no font has, so that it is shown as its source instead.
pub fn drawings<P: Copy, C: Copy>(items: &Vec<Item<P, C>>) -> (drawings: Option<
    Vec<Drawing<P, C>>,
>)
    ensures
        match drawings {
            Some(drawings) => drawings@.len() == items@.len() && forall|i: int|
                0 <= i < items@.len() ==> (#[trigger] items@[i]).drawn() == Some(drawings@[i]@),
            None => exists|i: int|
                0 <= i < items@.len() && (#[trigger] items@[i]).drawn() is None,
        },
{
    let mut drawings: Vec<Drawing<P, C>> = Vec::new();
    for i in 0..items.len()
        invariant
            drawings@.len() == i,
            forall|k: int|
                0 <= k < i ==> (#[trigger] items@[k]).drawn() == Some(drawings@[k]@),
    {
        match drawing(&items[i]) {
            Some(drawing) => drawings.push(drawing),
            None => {
                assert(items@[i as int].drawn() is None);
                return None;
            },
        }
    }
    Some(drawings)
}

/// A number written with decimals, without those that say nothing.
pub open spec fn shortest(text: Seq<char>) -> Seq<char> {
    let short = drop_end(drop_end(text, '0'), '.');
    if short == "-0"@ || short.len() == 0 {
        "0"@
    } else {
        short
    }
}

/// A number that `text` writes with four decimals, with no more of them than drawing at any
/// size needs.
pub fn number(text: &str) -> (short: String)
    ensures
        short@ == shortest(text@),
{
    let mut chars = chars_of(text);
    cut_end(&mut chars, '0');
    cut_end(&mut chars, '.');
    let short = text_of(&chars, 0, chars.len());
    proof {
        assert(short@ =~= chars@);
    }
    if chars.len() == 0 || same(short.as_str(), "-0") {
        String::from_str("0")
    } else {
        short
    }
}

/// Text as the value of an attribute.
pub fn escape_attribute(text: &str) -> (out: String)
    ensures
        out@ == escaped(text@),
{
    escape_html(text)
}

/// A point as its two numbers are written.
pub type WrittenPoint = (String, String);

/// A point as contracts speak of it.
pub type PointView = (Seq<char>, Seq<char>);

/// A piece of a path, in ems of the text around it, as it is written.
pub type WrittenSegment = Segment<WrittenPoint>;

/// A point as contracts speak of it.
pub open spec fn point_view(point: WrittenPoint) -> PointView {
    (point.0@, point.1@)
}

impl View for Segment<WrittenPoint> {
    type V = Segment<PointView>;

    open spec fn view(&self) -> Segment<PointView> {
        match *self {
            Segment::Move(to) => Segment::Move(point_view(to)),
            Segment::Line(to) => Segment::Line(point_view(to)),
            Segment::Quad(control, to) => Segment::Quad(point_view(control), point_view(to)),
            Segment::Cubic(first, second, to) => Segment::Cubic(
                point_view(first),
                point_view(second),
                point_view(to),
            ),
            Segment::Close => Segment::Close,
        }
    }
}

/// A path as contracts speak of it.
pub open spec fn path_view(path: Seq<WrittenSegment>) -> Seq<Segment<PointView>> {
    path.map_values(|segment: WrittenSegment| segment@)
}

/// A filled or stroked path, in the colour the formula gives it, or else in the colour of the
/// text, as contracts speak of it.
pub struct ShapeView {
    pub path: Seq<Segment<PointView>>,
    pub stroke: Option<Seq<char>>,
    pub color: Option<(u8, u8, u8)>,
}

/// A filled or stroked path, in the colour the formula gives it, or else in the colour of the
/// text.
#[derive(Debug, PartialEq)]
pub struct Shape {
    pub path: Vec<WrittenSegment>,
    /// The width of the line of a stroked path, in ems.
    pub stroke: Option<String>,
    pub color: Option<(u8, u8, u8)>,
}

impl View for Shape {
    type V = ShapeView;

    open spec fn view(&self) -> ShapeView {
        ShapeView {
            path: path_view(self.path@),
            stroke: crate::event::opt_view(self.stroke),
            color: self.color,
        }
    }
}

/// Shapes as contracts speak of them.
pub open spec fn shape_views(shapes: Seq<Shape>) -> Seq<ShapeView> {
    shapes.map_values(|shape: Shape| shape@)
}

/// A typeset formula as it is written: its top, which is above the baseline, its width, its
/// height, how far it drops below the baseline, all in ems, and its shapes.
#[derive(Debug, PartialEq)]
pub struct Formula {
    pub top: String,
    pub width: String,
    pub height: String,
    pub drop: String,
    pub shapes: Vec<Shape>,
}

/// A point of a path.
pub open spec fn point_text(point: PointView) -> Seq<char> {
    shortest(point.0) + " "@ + shortest(point.1)
}

/// A piece of a path.
pub open spec fn segment_text(segment: Segment<PointView>) -> Seq<char> {
    match segment {
        Segment::Move(to) => "M"@ + point_text(to),
        Segment::Line(to) => "L"@ + point_text(to),
        Segment::Quad(control, to) => "Q"@ + point_text(control) + " "@ + point_text(to),
        Segment::Cubic(first, second, to) => "C"@ + point_text(first) + " "@ + point_text(second)
            + " "@ + point_text(to),
        Segment::Close => "Z"@,
    }
}

/// The data of a path.
pub open spec fn path_data(path: Seq<Segment<PointView>>) -> Seq<char>
    decreases path.len(),
{
    if path.len() == 0 {
        Seq::empty()
    } else {
        path_data(path.drop_last()) + segment_text(path.last())
    }
}

/// What a shape is painted in.
pub open spec fn paint(color: Option<(u8, u8, u8)>) -> Seq<char> {
    match color {
        Some((red, green, blue)) => "rgb("@ + decimal(red as nat) + ", "@ + decimal(green as nat)
            + ", "@ + decimal(blue as nat) + ")"@,
        None => "currentColor"@,
    }
}

/// A shape as a path element.
pub open spec fn shape_text(shape: ShapeView) -> Seq<char> {
    match shape.stroke {
        Some(width) => "<path d=\""@ + path_data(shape.path) + "\" fill=\"none\" stroke=\""@
            + paint(shape.color) + "\" stroke-width=\""@ + shortest(width) + "\"/>"@,
        None => "<path d=\""@ + path_data(shape.path) + "\" fill=\""@ + paint(shape.color)
            + "\"/>"@,
    }
}

/// Shapes as path elements.
pub open spec fn shapes_text(shapes: Seq<ShapeView>) -> Seq<char>
    decreases shapes.len(),
{
    if shapes.len() == 0 {
        Seq::empty()
    } else {
        shapes_text(shapes.drop_last()) + shape_text(shapes.last())
    }
}

/// Add a number to `out`.
fn push_number(out: &mut String, text: &String)
    ensures
        final(out)@ == old(out)@ + shortest(text@),
{
    let short = number(text.as_str());
    out.append(short.as_str());
}

/// Add a point to `out`.
fn push_point(out: &mut String, point: &WrittenPoint)
    ensures
        final(out)@ == old(out)@ + point_text(point_view(*point)),
{
    let ghost before = out@;
    push_number(out, &point.0);
    out.append(" ");
    push_number(out, &point.1);
    proof {
        assert(out@ =~= before + point_text(point_view(*point)));
    }
}

/// Add a piece of a path to `out`.
fn push_segment(out: &mut String, segment: &WrittenSegment)
    ensures
        final(out)@ == old(out)@ + segment_text(segment@),
{
    let ghost before = out@;
    match segment {
        Segment::Move(to) => {
            out.append("M");
            push_point(out, to);
        },
        Segment::Line(to) => {
            out.append("L");
            push_point(out, to);
        },
        Segment::Quad(control, to) => {
            out.append("Q");
            push_point(out, control);
            out.append(" ");
            push_point(out, to);
        },
        Segment::Cubic(first, second, to) => {
            out.append("C");
            push_point(out, first);
            out.append(" ");
            push_point(out, second);
            out.append(" ");
            push_point(out, to);
        },
        Segment::Close => out.append("Z"),
    }
    proof {
        assert(out@ =~= before + segment_text(segment@));
    }
}

/// Add the data of a path to `out`.
fn push_path(out: &mut String, path: &Vec<WrittenSegment>)
    ensures
        final(out)@ == old(out)@ + path_data(path_view(path@)),
{
    let ghost before = out@;
    let ghost all = path_view(path@);
    proof {
        assert(before + path_data(all.take(0)) =~= before);
    }
    for i in 0..path.len()
        invariant
            all == path_view(path@),
            out@ == before + path_data(all.take(i as int)),
    {
        push_segment(out, &path[i]);
        proof {
            assert(all.take(i + 1).drop_last() =~= all.take(i as int));
            assert(out@ =~= before + path_data(all.take(i + 1)));
        }
    }
    proof {
        assert(all.take(all.len() as int) =~= all);
    }
}

/// Add what a shape is painted in to `out`.
fn push_paint(out: &mut String, color: Option<(u8, u8, u8)>)
    ensures
        final(out)@ == old(out)@ + paint(color),
{
    let ghost before = out@;
    match color {
        Some((red, green, blue)) => {
            out.append("rgb(");
            push_decimal(out, red as u128);
            out.append(", ");
            push_decimal(out, green as u128);
            out.append(", ");
            push_decimal(out, blue as u128);
            out.append(")");
        },
        None => out.append("currentColor"),
    }
    proof {
        assert(out@ =~= before + paint(color));
    }
}

/// Add a shape as a path element to `out`.
fn push_shape(out: &mut String, shape: &Shape)
    ensures
        final(out)@ == old(out)@ + shape_text(shape@),
{
    let ghost before = out@;
    out.append("<path d=\"");
    push_path(out, &shape.path);
    match &shape.stroke {
        Some(width) => {
            out.append("\" fill=\"none\" stroke=\"");
            push_paint(out, shape.color);
            out.append("\" stroke-width=\"");
            push_number(out, width);
            out.append("\"/>");
        },
        None => {
            out.append("\" fill=\"");
            push_paint(out, shape.color);
            out.append("\"/>");
        },
    }
    proof {
        assert(out@ =~= before + shape_text(shape@));
    }
}

impl Formula {
    /// The formula as an inline SVG element, read out as its source.
    pub open spec fn svg_text(self, latex: Seq<char>) -> Seq<char> {
        "<svg xmlns=\"http://www.w3.org/2000/svg\" class=\"math\" role=\"img\" aria-label=\""@
            + escaped(latex) + "\" viewBox=\"0 "@ + shortest(self.top@) + " "@ + shortest(
            self.width@,
        ) + " "@ + shortest(self.height@) + "\" style=\"width: "@ + shortest(self.width@)
            + "em; height: "@ + shortest(self.height@) + "em; vertical-align: "@ + shortest(
            self.drop@,
        ) + "em\">"@ + shapes_text(shape_views(self.shapes@)) + "</svg>"@
    }

    /// The formula as an inline SVG element in ems, drawn in the colour of the text around it,
    /// and read out as its source, `latex`.
    pub fn svg(&self, latex: &str) -> (svg: String)
        ensures
            svg@ == self.svg_text(latex@),
    {
        let mut svg = String::from_str(
            "<svg xmlns=\"http://www.w3.org/2000/svg\" class=\"math\" role=\"img\" aria-label=\"",
        );
        svg.append(escape_attribute(latex).as_str());
        svg.append("\" viewBox=\"0 ");
        push_number(&mut svg, &self.top);
        svg.append(" ");
        push_number(&mut svg, &self.width);
        svg.append(" ");
        push_number(&mut svg, &self.height);
        svg.append("\" style=\"width: ");
        push_number(&mut svg, &self.width);
        svg.append("em; height: ");
        push_number(&mut svg, &self.height);
        svg.append("em; vertical-align: ");
        push_number(&mut svg, &self.drop);
        svg.append("em\">");
        let ghost before = svg@;
        let ghost all = shape_views(self.shapes@);
        proof {
            assert(before + shapes_text(all.take(0)) =~= before);
        }
        for i in 0..self.shapes.len()
            invariant
                all == shape_views(self.shapes@),
                svg@ == before + shapes_text(all.take(i as int)),
        {
            push_shape(&mut svg, &self.shapes[i]);
            proof {
                assert(all.take(i + 1).drop_last() =~= all.take(i as int));
                assert(svg@ =~= before + shapes_text(all.take(i + 1)));
            }
        }
        proof {
            assert(all.take(all.len() as int) =~= all);
        }
        svg.append("</svg>");
        proof {
            assert(svg@ =~= self.svg_text(latex@));
        }
        svg
    }
}

/// `latex` with the kern of each of its first `n` characters that has one and is not ASCII.
pub open spec fn kerned(latex: Seq<char>, kerns: Seq<Option<Seq<char>>>, n: int) -> Seq<char>
    decreases n,
{
    if n <= 0 {
        Seq::empty()
    } else {
        let before = kerned(latex, kerns, n - 1).push(latex[n - 1]);
        if latex[n - 1] as u32 >= 128 && n - 1 < kerns.len() && kerns[n - 1] is Some {
            before + "\\kern{"@ + kerns[n - 1]->0 + "em}"@
        } else {
            before
        }
    }
}

/// Kerns as contracts speak of them.
pub open spec fn kern_views(kerns: Seq<Option<String>>) -> Seq<Option<Seq<char>>> {
    kerns.map_values(|kern: Option<String>| crate::event::opt_view(kern))
}

/// `latex` with a kern after each character that the fonts of math do not have, as a Cyrillic
/// letter in `\text{}`. Such a character is laid out in a width that is guessed, and the kern,
/// which `kerns` writes in ems for each character that needs one, makes up the width of the
/// character in the font of the system it is drawn in.
pub fn kern_missing_characters(latex: &str, kerns: &Vec<Option<String>>) -> (text: String)
    ensures
        text@ == kerned(latex@, kern_views(kerns@), latex@.len() as int),
{
    let chars = chars_of(latex);
    let ghost widths = kern_views(kerns@);
    let mut text = String::new();
    for i in 0..chars.len()
        invariant
            chars@ == latex@,
            widths == kern_views(kerns@),
            text@ == kerned(latex@, widths, i as int),
    {
        let ghost before = text@;
        text.push(chars[i]);
        if chars[i] as u32 >= 128 && i < kerns.len() {
            if let Some(kern) = &kerns[i] {
                text.append("\\kern{");
                text.append(kern.as_str());
                text.append("em}");
            }
        }
        proof {
            assert(text@ =~= kerned(latex@, widths, i + 1));
        }
    }
    text
}

/// How many formulas are kept before the store is emptied.
pub const MAX_TYPESET: usize = 1000;

/// A formula by its source and whether it is displayed.
pub type FormulaKey = (Seq<char>, bool);

/// Formulas typeset so far, by their source and whether they are displayed, or `None` for those
/// that do not typeset. `F` is what stands for a typeset formula.
pub struct Typeset<F> {
    kept: Vec<(String, bool, Option<F>)>,
}

impl<F> Typeset<F> {
    /// The formulas that are kept.
    pub closed spec fn formulas(self) -> Map<FormulaKey, Option<F>> {
        Map::new(
            |key: FormulaKey| exists|i: int| self.kept_at(key, i),
            |key: FormulaKey| self.kept@[choose|i: int| self.kept_at(key, i)].2,
        )
    }

    /// Whether a formula is kept at a place.
    spec fn kept_at(self, key: FormulaKey, i: int) -> bool {
        0 <= i < self.kept@.len() && self.kept@[i].0@ == key.0 && self.kept@[i].1 == key.1
    }

    /// How many formulas are kept.
    pub closed spec fn len(self) -> nat {
        self.kept@.len()
    }

    /// Each formula is kept once, and no more of them than fit.
    pub closed spec fn wf(self) -> bool {
        &&& self.kept@.len() <= MAX_TYPESET + 1
        &&& forall|i: int, j: int|
            0 <= i < j < self.kept@.len() ==> (#[trigger] self.kept@[i]).0@ != (
            #[trigger] self.kept@[j]).0@ || self.kept@[i].1 != self.kept@[j].1
    }

    /// A store with no formulas.
    pub fn new() -> (store: Self)
        ensures
            store.wf(),
            store.len() == 0,
            store.formulas() == Map::<FormulaKey, Option<F>>::empty(),
    {
        let store = Typeset { kept: Vec::new() };
        proof {
            assert(store.formulas() =~= Map::<FormulaKey, Option<F>>::empty());
        }
        store
    }

    /// The formula as it was typeset, if it is kept.
    pub fn find(&self, latex: &str, display: bool) -> (found: Option<&Option<F>>)
        requires
            self.wf(),
        ensures
            match found {
                Some(formula) => self.formulas().dom().contains((latex@, display))
                    && self.formulas()[(latex@, display)] == *formula,
                None => !self.formulas().dom().contains((latex@, display)),
            },
    {
        let ghost key = (latex@, display);
        for i in 0..self.kept.len()
            invariant
                self.wf(),
                key == (latex@, display),
                forall|k: int| 0 <= k < i ==> !self.kept_at(key, k),
        {
            if self.kept[i].1 == display && same(self.kept[i].0.as_str(), latex) {
                proof {
                    assert(self.kept_at(key, i as int));
                    let chosen = choose|k: int| self.kept_at(key, k);
                    assert(self.kept_at(key, chosen));
                    assert(chosen == i);
                }
                return Some(&self.kept[i].2);
            }
        }
        None
    }

    /// Keep a formula as it was typeset, or that it does not typeset. Each version of a formula
    /// being typed is kept, so the store is emptied now and then.
    pub fn keep(&mut self, latex: &str, display: bool, formula: Option<F>)
        requires
            old(self).wf(),
            !old(self).formulas().dom().contains((latex@, display)),
        ensures
            final(self).wf(),
            final(self).formulas() == (if old(self).len() > MAX_TYPESET {
                Map::empty()
            } else {
                old(self).formulas()
            }).insert((latex@, display), formula),
            final(self).len() == if old(self).len() > MAX_TYPESET {
                1
            } else {
                old(self).len() + 1
            },
    {
        let ghost key = (latex@, display);
        if self.kept.len() > MAX_TYPESET {
            self.kept.clear();
        }
        let ghost before = *self;
        proof {
            assert forall|k: int| !#[trigger] before.kept_at(key, k) by {
                if before.kept_at(key, k) {
                    assert(old(self).kept_at(key, k));
                    assert(old(self).formulas().dom().contains(key));
                }
            }
            if old(self).len() > MAX_TYPESET {
                assert(before.formulas() =~= Map::<FormulaKey, Option<F>>::empty());
            }
        }
        self.kept.push((String::from_str(latex), display, formula));
        proof {
            let last = self.kept@.len() - 1;
            assert(self.kept_at(key, last));
            assert forall|other: FormulaKey, k: int| k != last implies #[trigger] self.kept_at(
                other,
                k,
            ) == before.kept_at(other, k) by {}
            assert forall|k: int| #[trigger] self.kept_at(key, k) implies k == last by {}
            assert forall|i: int, j: int| 0 <= i < j < self.kept@.len() implies (
            #[trigger] self.kept@[i]).0@ != (#[trigger] self.kept@[j]).0@ || self.kept@[i].1
                != self.kept@[j].1 by {
                assert(self.kept@[i] == before.kept@[i]);
                if j == last {
                    assert(!before.kept_at(key, i));
                } else {
                    assert(self.kept@[j] == before.kept@[j]);
                }
            }
            let after = before.formulas().insert(key, formula);
            assert forall|other: FormulaKey| #[trigger]
                self.formulas().dom().contains(other) == after.dom().contains(other) by {
                if other != key {
                    if before.formulas().dom().contains(other) {
                        let k = choose|k: int| before.kept_at(other, k);
                        assert(self.kept_at(other, k));
                    }
                    if self.formulas().dom().contains(other) {
                        let k = choose|k: int| self.kept_at(other, k);
                        assert(before.kept_at(other, k));
                    }
                }
            }
            assert forall|other: FormulaKey| #[trigger]
                self.formulas().dom().contains(other) implies self.formulas()[other]
                == after[other] by {
                if other != key {
                    let k = choose|k: int| self.kept_at(other, k);
                    let m = choose|m: int| before.kept_at(other, m);
                    assert(self.kept_at(other, k));
                    assert(before.kept_at(other, k));
                    assert(before.kept_at(other, m));
                    assert(k == m);
                }
            }
            assert(self.formulas() =~= after);
        }
    }
}

/// A family of the system's fonts.
#[derive(Clone, Copy, Debug, PartialEq, Eq, Structural)]
pub enum Family {
    Sans,
    Monospace,
    Serif,
}

/// The font of the system alike to a font of math: its family, and whether it is bold and
/// italic.
pub fn system_font(name: &str) -> (font: (Family, bool, bool))
    ensures
        font == (
            if starts_with(name@, "SansSerif"@) {
                Family::Sans
            } else if starts_with(name@, "Typewriter"@) {
                Family::Monospace
            } else {
                Family::Serif
            },
            holds(name@, "Bold"@),
            holds(name@, "Italic"@),
        ),
{
    let family = if begins(name, "SansSerif") {
        Family::Sans
    } else if begins(name, "Typewriter") {
        Family::Monospace
    } else {
        Family::Serif
    };
    let chars = chars_of(name);
    let bold = contains(&chars, &chars_of("Bold"));
    let italic = contains(&chars, &chars_of("Italic"));
    (family, bold, italic)
}

/// Whether a piece of a path draws a line or a curve.
pub open spec fn is_stroke<P>(segment: Segment<P>) -> bool {
    !(segment is Move || segment is Close)
}

/// An outline draws every curve once, in order, whichever of them are joined.
pub proof fn outlines_draw_every_curve<P>(curves: Seq<Curve<P>>, joined: Seq<bool>)
    ensures
        outline_path(curves, joined).filter(|segment: Segment<P>| is_stroke(segment))
            == curves.map_values(|curve: Curve<P>| curve.drawn()),
{
    let stroke = |segment: Segment<P>| is_stroke(segment);
    let drawn = |curve: Curve<P>| curve.drawn();
    reveal(Seq::filter);
    if curves.len() == 0 {
        assert(outline_path(curves, joined).filter(stroke) =~= curves.map_values(drawn));
    } else {
        let n = curves.len() as int;
        contours_draw_every_curve(curves, joined, n);
        let open = contours(curves, joined, n);
        assert(open.push(Segment::Close).drop_last() =~= open);
        assert(curves.take(n) =~= curves);
    }
}

/// A piece that draws nothing adds nothing that is drawn.
proof fn moves_draw_nothing<P>(path: Seq<Segment<P>>, segment: Segment<P>)
    requires
        !is_stroke(segment),
    ensures
        path.push(segment).filter(|segment: Segment<P>| is_stroke(segment)) == path.filter(
            |segment: Segment<P>| is_stroke(segment),
        ),
{
    reveal(Seq::filter);
    assert(path.push(segment).drop_last() =~= path);
}

/// The contours of the first curves draw each of them once.
proof fn contours_draw_every_curve<P>(curves: Seq<Curve<P>>, joined: Seq<bool>, n: int)
    requires
        0 <= n <= curves.len(),
    ensures
        contours(curves, joined, n).filter(|segment: Segment<P>| is_stroke(segment)) == curves.take(
            n,
        ).map_values(|curve: Curve<P>| curve.drawn()),
    decreases n,
{
    let stroke = |segment: Segment<P>| is_stroke(segment);
    let drawn = |curve: Curve<P>| curve.drawn();
    reveal(Seq::filter);
    if n == 0 {
        assert(contours(curves, joined, n).filter(stroke) =~= curves.take(n).map_values(drawn));
    } else {
        contours_draw_every_curve(curves, joined, n - 1);
        let before = contours(curves, joined, n - 1);
        let all = contours(curves, joined, n);
        let curve = curves[n - 1];
        assert(curves.take(n) =~= curves.take(n - 1).push(curve));
        let rest = all.drop_last();
        assert(all.last() == curve.drawn());
        if n == 1 {
            assert(before =~= Seq::<Segment<P>>::empty());
            assert(rest =~= before.push(Segment::Move(curve.start())));
            moves_draw_nothing(before, Segment::Move(curve.start()));
        } else if n - 1 < joined.len() && joined[n - 1] {
            assert(rest =~= before);
        } else {
            let closed = before.push(Segment::Close);
            assert(rest =~= closed.push(Segment::Move(curve.start())));
            moves_draw_nothing(closed, Segment::Move(curve.start()));
            moves_draw_nothing(before, Segment::Close);
        }
        assert(rest.filter(stroke) == before.filter(stroke));
        assert(all.filter(stroke) =~= curves.take(n).map_values(drawn));
    }
}

}
