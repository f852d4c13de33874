//! The values the settings take and what follows from them: widths, fonts, zoom and style.

use crate::preview::{is_followed, is_safe_link};
use crate::text::{
    decimal_signed, fill, filled, push_quoted, push_signed, quoted, quotes_hold, same, unquoted,
};
use vstd::prelude::*;
use vstd::string::*;

verus! {

/// The widths the editor and the preview can be limited to, in pixels.
pub const CONTENT_WIDTHS: [i32; 4] = [700, 800, 900, 1000];

/// A content width as it is shown in menus, in the words of `template`.
pub fn content_width_label(template: &str, width: i32) -> (label: String)
    ensures
        label@ == filled(template@, decimal_signed(width as int)),
{
    let mut value = String::new();
    push_signed(&mut value, width);
    proof {
        assert(value@ =~= decimal_signed(width as int));
    }
    fill(template, value.as_str())
}

/// The row of a width in the list of widths.
pub open spec fn width_row(width: i32) -> Option<usize> {
    if width == 700 {
        Some(0)
    } else if width == 800 {
        Some(1)
    } else if width == 900 {
        Some(2)
    } else if width == 1000 {
        Some(3)
    } else {
        None
    }
}

/// The row of a width in the list of widths, if it is there.
pub fn width_index(width: i32) -> (index: Option<usize>)
    ensures
        index == width_row(width),
{
    let mut i: usize = 0;
    while i < 4
        invariant
            i <= 4,
            forall|j: int| 0 <= j < i ==> #[trigger] CONTENT_WIDTHS@[j] != width,
        decreases 4 - i,
    {
        if CONTENT_WIDTHS[i] == width {
            return Some(i);
        }
        i = i + 1;
    }
    proof {
        assert(CONTENT_WIDTHS@[0] == 700);
        assert(CONTENT_WIDTHS@[1] == 800);
        assert(CONTENT_WIDTHS@[2] == 900);
        assert(CONTENT_WIDTHS@[3] == 1000);
    }
    None
}

/// The width of a row in the list of widths, if there is such a row.
pub fn width_at(index: usize) -> (width: Option<i32>)
    ensures
        match width {
            Some(width) => index < 4 && width_row(width) == Some(index),
            None => index >= 4,
        },
{
    if index < 4 {
        Some(CONTENT_WIDTHS[index])
    } else {
        None
    }
}

/// The nearest number to `value` from `low` to `high`.
pub open spec fn clamped(value: int, low: int, high: int) -> int {
    if value < low {
        low
    } else if value > high {
        high
    } else {
        value
    }
}

/// The zoom, which stays between -5 and 21, once it is changed by `delta`.
pub fn zoomed(zoom: i32, delta: i32) -> (next: i32)
    requires
        i32::MIN <= zoom + delta <= i32::MAX,
    ensures
        next == clamped(zoom + delta, -5, 21),
{
    let next = zoom + delta;
    if next < -5 {
        -5
    } else if next > 21 {
        21
    } else {
        next
    }
}

/// The size of text at a zoom, in points.
pub open spec fn size_at(zoom: int) -> int {
    clamped(11 + zoom, 6, 32)
}

/// The size of text at a zoom, in points.
pub fn font_size(zoom: i32) -> (size: i32)
    requires
        zoom <= i32::MAX - 11,
    ensures
        size == size_at(zoom as int),
{
    let size = 11 + zoom;
    if size < 6 {
        6
    } else if size > 32 {
        32
    } else {
        size
    }
}

/// Zooming in and out by one step goes through every size from the smallest to the largest, and
/// no zoom is wasted on a size that another one has.
pub proof fn every_zoom_has_a_size_of_its_own(zoom: int, other: int)
    requires
        -5 <= zoom <= 21,
        -5 <= other <= 21,
    ensures
        6 <= size_at(zoom) <= 32,
        zoom < other ==> size_at(zoom) < size_at(other),
        size_at(-5) == 6,
        size_at(21) == 32,
{
}

/// The family of a font: the one that is picked, or else the system's.
pub fn font_family(picked: &str, system: &str) -> (family: String)
    ensures
        family@ == (if picked@.len() == 0 {
            system@
        } else {
            picked@
        }),
{
    if picked.is_empty() {
        String::from_str(system)
    } else {
        String::from_str(picked)
    }
}

/// `text` as a quoted CSS string.
pub open spec fn css_quoted(text: Seq<char>) -> Seq<char> {
    "\""@ + quoted(text, '"') + "\""@
}

/// `text` as a quoted CSS string.
pub fn css_string(text: &str) -> (out: String)
    ensures
        out@ == css_quoted(text@),
{
    let mut out = String::from_str("\"");
    push_quoted(&mut out, text, '"');
    out.append("\"");
    out
}

/// Whatever the name of a font holds, it cannot end the string that names it.
pub proof fn font_names_stay_in_their_quotes(text: Seq<char>, after: Seq<char>)
    ensures
        unquoted(css_quoted(text).skip(1) + after, '"') == Some((text, after)),
{
    reveal_strlit("\"");
    quotes_hold(text, '"', after);
    assert(css_quoted(text).skip(1) + after =~= quoted(text, '"') + seq!['"'] + after);
}

/// The stylesheet of the fonts.
pub open spec fn font_rules(size: int, text: Seq<char>, monospace: Seq<char>) -> Seq<char> {
    "textview.editor-view { font-size: "@ + decimal_signed(size)
        + "pt; }\ntextview.transparent-bg { font-size: "@ + decimal_signed(size)
        + "pt; }\ntextview.preview-view { font-family: "@ + css_quoted(text)
        + "; }\ntextview.editor-view, textview.code-view { font-family: "@ + css_quoted(
        monospace,
    ) + "; }"@
}

/// The stylesheet that gives the editors and the previews the fonts and the text size.
pub fn font_css(zoom: i32, text: &str, monospace: &str) -> (css: String)
    requires
        zoom <= i32::MAX - 11,
    ensures
        css@ == font_rules(size_at(zoom as int), text@, monospace@),
{
    let size = font_size(zoom);
    let mut css = String::from_str("textview.editor-view { font-size: ");
    push_signed(&mut css, size);
    css.append("pt; }\ntextview.transparent-bg { font-size: ");
    push_signed(&mut css, size);
    css.append("pt; }\ntextview.preview-view { font-family: ");
    css.append(css_string(text).as_str());
    css.append("; }\ntextview.editor-view, textview.code-view { font-family: ");
    css.append(css_string(monospace).as_str());
    css.append("; }");
    css
}

/// The style of the application.
#[derive(Clone, Copy, Debug, PartialEq, Eq, Structural)]
pub enum Scheme {
    /// The desktop's.
    System,
    Light,
    Dark,
}

impl Scheme {
    /// The name of the style in the settings.
    pub open spec fn nick_of(self) -> Seq<char> {
        match self {
            Scheme::System => "system"@,
            Scheme::Light => "light"@,
            Scheme::Dark => "dark"@,
        }
    }

    /// The name of the style in the settings.
    pub fn nick(self) -> (nick: &'static str)
        ensures
            nick@ == self.nick_of(),
    {
        match self {
            Scheme::System => "system",
            Scheme::Light => "light",
            Scheme::Dark => "dark",
        }
    }

    /// The style of a name in the settings; any other name is that of the desktop's style.
    pub fn from_nick(nick: &str) -> (scheme: Self)
        ensures
            scheme == (if nick@ == "light"@ {
                Scheme::Light
            } else if nick@ == "dark"@ {
                Scheme::Dark
            } else {
                Scheme::System
            }),
    {
        if same(nick, "light") {
            Scheme::Light
        } else if same(nick, "dark") {
            Scheme::Dark
        } else {
            Scheme::System
        }
    }

    /// The row of the style of a name in the list of styles.
    pub open spec fn row_of(nick: Seq<char>) -> Option<u32> {
        if nick == "system"@ {
            Some(0)
        } else if nick == "light"@ {
            Some(1)
        } else if nick == "dark"@ {
            Some(2)
        } else {
            None
        }
    }

    /// The row of the style of a name in the list of styles, if it is there.
    pub fn index(nick: &str) -> (index: Option<u32>)
        ensures
            index == Scheme::row_of(nick@),
    {
        if same(nick, "system") {
            Some(0)
        } else if same(nick, "light") {
            Some(1)
        } else if same(nick, "dark") {
            Some(2)
        } else {
            None
        }
    }

    /// The style at a row.
    pub open spec fn in_row(index: u32) -> Option<Scheme> {
        if index == 0 {
            Some(Scheme::System)
        } else if index == 1 {
            Some(Scheme::Light)
        } else if index == 2 {
            Some(Scheme::Dark)
        } else {
            None
        }
    }

    /// The style at a row in the list of styles, if there is such a row.
    pub fn at(index: u32) -> (scheme: Option<Self>)
        ensures
            scheme == Scheme::in_row(index),
    {
        if index == 0 {
            Some(Scheme::System)
        } else if index == 1 {
            Some(Scheme::Light)
        } else if index == 2 {
            Some(Scheme::Dark)
        } else {
            None
        }
    }
}

/// Picking a row and showing the style that is set are inverse to each other.
pub proof fn styles_keep_their_rows(index: u32)
    requires
        index < 3,
    ensures
        Scheme::row_of(Scheme::in_row(index)->0.nick_of()) == Some(index),
{
    reveal_strlit("system");
    reveal_strlit("light");
    reveal_strlit("dark");
    assert("system"@.len() == 6);
    assert("light"@.len() == 5);
    assert("dark"@.len() == 4);
}

/// The first link that holds `offset`, of the first `n`.
pub open spec fn link_holding(links: Seq<(i32, i32, String)>, offset: i32, n: int) -> Option<
    Seq<char>,
>
    decreases links.len() - n,
{
    if n < 0 || n >= links.len() {
        None
    } else if links[n].0 <= offset < links[n].1 {
        Some(links[n].2@)
    } else {
        link_holding(links, offset, n + 1)
    }
}

/// The link at `offset` of the preview.
pub fn link_holding_at(links: &Vec<(i32, i32, String)>, offset: i32) -> (url: Option<String>)
    ensures
        crate::event::opt_view(url) == link_holding(links@, offset, 0),
{
    let mut n: usize = 0;
    while n < links.len()
        invariant
            n <= links@.len(),
            link_holding(links@, offset, 0) == link_holding(links@, offset, n as int),
        decreases links.len() - n,
    {
        let link = &links[n];
        if link.0 <= offset && offset < link.1 {
            return Some(link.2.clone());
        }
        n = n + 1;
    }
    None
}

/// The web or mail link at `offset` of the preview.
pub fn link_at(links: &Vec<(i32, i32, String)>, offset: i32) -> (url: Option<String>)
    ensures
        crate::event::opt_view(url) == (match link_holding(links@, offset, 0) {
            Some(url) => if is_followed(url) {
                Some(url)
            } else {
                None
            },
            None => None,
        }),
{
    match link_holding_at(links, offset) {
        Some(url) => if is_safe_link(url.as_str()) {
            Some(url)
        } else {
            None
        },
        None => None,
    }
}

/// Zooming stays within the sizes there are, and changes by as much as it is told to as long as it
/// does.
pub proof fn zooming_stays_within_its_sizes(zoom: int, delta: int)
    ensures
        -5 <= clamped(zoom + delta, -5, 21) <= 21,
        -5 <= zoom + delta <= 21 ==> clamped(zoom + delta, -5, 21) == zoom + delta,
        zoom + delta < -5 ==> clamped(zoom + delta, -5, 21) == -5,
        zoom + delta > 21 ==> clamped(zoom + delta, -5, 21) == 21,
        -5 <= zoom <= 21 ==> size_at(zoom) == 11 + zoom,
{
}

}
