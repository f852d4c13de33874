//! HTML export. The document may come from anyone and the file may be opened in a browser,
//! so raw HTML is written again only as its text, its `<details>` elements and the styles it
//! gives text, and link and image addresses are limited to safe schemes.

use crate::text::{
    chars_of, first_word, has_at, lower_chars, lowered, push_hex, push_hex_padded, spread,
    starts_with, trim, trimmed,
};
use std::collections::HashSet;
use std::ops::Range;
use vstd::prelude::*;
use vstd::string::*;

verus! {

/// Whether a character is an ASCII letter.
pub open spec fn is_letter(c: char) -> bool {
    ('a' <= c && c <= 'z') || ('A' <= c && c <= 'Z')
}

/// Whether a character can be in a scheme, after the first.
pub open spec fn is_scheme_char(c: char) -> bool {
    is_letter(c) || ('0' <= c && c <= '9') || c == '+' || c == '-' || c == '.'
}

/// Whether `url` carries an explicit URI scheme: a letter, then letters, digits and the
/// signs `+`, `-` and `.`, then a colon.
pub open spec fn has_scheme(url: Seq<char>) -> bool {
    exists|end: int| #[trigger] is_scheme(url, end)
}

/// Whether the scheme of `url` ends at `end`.
pub open spec fn is_scheme(url: Seq<char>, end: int) -> bool {
    &&& 0 < end < url.len()
    &&& url[end] == ':'
    &&& is_letter(url[0])
    &&& forall|i: int| 0 <= i < end ==> is_scheme_char(#[trigger] url[i])
}

/// True when `url` carries an explicit URI scheme (`scheme:`), per the RFC 3986 grammar
/// (`ALPHA *( ALPHA / DIGIT / "+" / "-" / "." ) ":"`). Scheme-relative, relative, and
/// fragment references have no scheme.
pub fn url_has_scheme(url: &str) -> (scheme: bool)
    ensures
        scheme == has_scheme(url@),
{
    chars_have_scheme(&chars_of(url))
}

/// [`url_has_scheme`] of the characters of an address.
fn chars_have_scheme(url: &Vec<char>) -> (scheme: bool)
    ensures
        scheme == has_scheme(url@),
{
    if url.len() == 0 {
        return false;
    }
    let first = url[0];
    if !(('a' <= first && first <= 'z') || ('A' <= first && first <= 'Z')) {
        return false;
    }
    for i in 0..url.len()
        invariant
            url@.len() > 0,
            is_letter(url@[0]),
            forall|j: int| 0 <= j < i ==> is_scheme_char(#[trigger] url@[j]),
    {
        let c = url[i];
        if c == ':' {
            proof {
                assert(is_scheme(url@, i as int));
            }
            return true;
        }
        if !(('a' <= c && c <= 'z') || ('A' <= c && c <= 'Z') || ('0' <= c && c <= '9') || c == '+'
            || c == '-' || c == '.') {
            proof {
                assert forall|end: int| !is_scheme(url@, end) by {
                    if is_scheme(url@, end) {
                        if end > i {
                            assert(is_scheme_char(url@[i as int]));
                        } else {
                            assert(url@[end] == ':');
                            if end < i {
                                assert(is_scheme_char(url@[end]));
                            }
                        }
                    }
                }
            }
            return false;
        }
    }
    proof {
        assert forall|end: int| !is_scheme(url@, end) by {
            if is_scheme(url@, end) {
                assert(is_scheme_char(url@[end]));
            }
        }
    }
    false
}

/// Whether a link or image address is safe to write into an exported page.
pub open spec fn is_safe_url(url: Seq<char>) -> bool {
    let lower = lowered(trim(url));
    ||| lower.len() == 0
    ||| starts_with(lower, "http://"@)
    ||| starts_with(lower, "https://"@)
    ||| starts_with(lower, "mailto:"@)
    ||| !has_scheme(lower)
}

/// Whether a link/image URL is safe to emit into exported HTML. Allows the web and mail
/// schemes plus any scheme-less (relative/anchor) reference; everything else, notably
/// `javascript:`, `data:`, `file:` and `vbscript:`, is rejected so exported documents cannot
/// execute script when opened in a browser.
pub fn is_safe_export_url(url: &str) -> (safe: bool)
    ensures
        safe == is_safe_url(url@),
{
    let lower = lower_chars(&trimmed(&chars_of(url)));
    if lower.len() == 0 {
        return true;
    }
    has_at(&lower, 0, &chars_of("http://")) || has_at(&lower, 0, &chars_of("https://")) || has_at(
        &lower,
        0,
        &chars_of("mailto:"),
    ) || !chars_have_scheme(&lower)
}

/// The address written for a link: its own if it is safe, else none.
pub open spec fn sanitized(url: Seq<char>) -> Seq<char> {
    if is_safe_url(url) {
        url
    } else {
        Seq::empty()
    }
}

/// The address written for a link: its own if it is safe, else none.
pub fn sanitize_export_url(url: &str) -> (safe: String)
    ensures
        safe@ == sanitized(url@),
        is_safe_url(safe@),
{
    if is_safe_export_url(url) {
        String::from_str(url)
    } else {
        proof {
            nothing_is_safe();
        }
        String::new()
    }
}

/// An address that is empty is safe.
pub proof fn nothing_is_safe()
    ensures
        is_safe_url(Seq::empty()),
{
    assert(lowered(trim(Seq::empty())).len() == 0);
}

/// What a character is written as in HTML text or a quoted attribute.
pub open spec fn escaped_char(c: char) -> Seq<char> {
    if c == '&' {
        "&amp;"@
    } else if c == '<' {
        "&lt;"@
    } else if c == '>' {
        "&gt;"@
    } else if c == '"' {
        "&quot;"@
    } else {
        seq![c]
    }
}

/// `text` as HTML text or a quoted attribute.
pub open spec fn escaped(text: Seq<char>) -> Seq<char> {
    spread(text, |c: char| escaped_char(c))
}

/// Escape text for an HTML element or a quoted attribute.
pub fn escape_html(text: &str) -> (out: String)
    ensures
        out@ == escaped(text@),
{
    let chars = chars_of(text);
    let mut out = String::new();
    push_escaped(&mut out, &chars, 0, chars.len());
    proof {
        assert(chars@.subrange(0, chars@.len() as int) =~= chars@);
        assert(Seq::<char>::empty() + escaped(text@) =~= escaped(text@));
    }
    out
}

/// Add the characters from `start` up to `end`, escaped, to `out`.
fn push_escaped(out: &mut String, chars: &Vec<char>, start: usize, end: usize)
    requires
        start <= end <= chars@.len(),
    ensures
        final(out)@ == old(out)@ + escaped(chars@.subrange(start as int, end as int)),
{
    let ghost before = out@;
    let ghost write = |c: char| escaped_char(c);
    proof {
        assert(escaped(chars@.subrange(start as int, start as int)) =~= Seq::<char>::empty());
    }
    for i in start..end
        invariant
            start <= end <= chars@.len(),
            write == (|c: char| escaped_char(c)),
            out@ == before + spread(chars@.subrange(start as int, i as int), write),
    {
        let c = chars[i];
        proof {
            assert(chars@.subrange(start as int, i + 1) =~= chars@.subrange(
                start as int,
                i as int,
            ).push(c));
            crate::text::spread_push(chars@.subrange(start as int, i as int), c, write);
        }
        let ghost then = out@;
        if c == '&' {
            out.append("&amp;");
        } else if c == '<' {
            out.append("&lt;");
        } else if c == '>' {
            out.append("&gt;");
        } else if c == '"' {
            out.append("&quot;");
        } else {
            out.push(c);
        }
        proof {
            assert(out@ =~= then + escaped_char(c));
            assert(before + (spread(chars@.subrange(start as int, i as int), write) + escaped_char(
                c,
            )) =~= out@);
        }
    }
}

/// Escaped text can neither open a tag nor end the attribute it stands in.
pub proof fn escaped_text_is_inert(text: Seq<char>)
    ensures
        !escaped(text).contains('<'),
        !escaped(text).contains('>'),
        !escaped(text).contains('"'),
{
    reveal_strlit("&amp;");
    reveal_strlit("&lt;");
    reveal_strlit("&gt;");
    reveal_strlit("&quot;");
    let write = |c: char| escaped_char(c);
    crate::text::spread_avoids(text, write, '<');
    crate::text::spread_avoids(text, write, '>');
    crate::text::spread_avoids(text, write, '"');
}

/// What a character is written as in a quoted CSS string.
pub open spec fn css_char(c: char) -> Seq<char> {
    if c == '"' || c == '\\' || c == '<' || c == '>' || c == '\n' || c == '\r' {
        "\\"@ + crate::text::hex(c as nat) + " "@
    } else {
        seq![c]
    }
}

/// `text` as a quoted CSS string.
pub open spec fn css_text(text: Seq<char>) -> Seq<char> {
    "\""@ + spread(text, |c: char| css_char(c)) + "\""@
}

/// `text` as a quoted CSS string, which cannot end the string or the stylesheet around it.
pub fn css_string(text: &str) -> (out: String)
    ensures
        out@ == css_text(text@),
{
    let chars = chars_of(text);
    let mut out = String::from_str("\"");
    let ghost before = out@;
    let ghost write = |c: char| css_char(c);
    for i in 0..chars.len()
        invariant
            chars@ == text@,
            write == (|c: char| css_char(c)),
            out@ == before + spread(chars@.take(i as int), write),
    {
        let c = chars[i];
        proof {
            assert(chars@.take(i + 1) =~= chars@.take(i as int).push(c));
            crate::text::spread_push(chars@.take(i as int), c, write);
        }
        let ghost then = out@;
        if c == '"' || c == '\\' || c == '<' || c == '>' || c == '\n' || c == '\r' {
            out.append("\\");
            push_hex(&mut out, c as u64);
            out.append(" ");
        } else {
            out.push(c);
        }
        proof {
            assert(out@ =~= then + css_char(c));
            assert(before + (spread(chars@.take(i as int), write) + css_char(c)) =~= out@);
        }
    }
    proof {
        assert(chars@.take(chars@.len() as int) =~= chars@);
    }
    out.append("\"");
    out
}

/// Between its quotes a CSS string holds no quote, no angle bracket and no end of a line, so it
/// ends neither the string nor the stylesheet.
pub proof fn css_strings_cannot_end_the_stylesheet(text: Seq<char>)
    ensures
        ({
            let inner = spread(text, |c: char| css_char(c));
            &&& css_text(text) == "\""@ + inner + "\""@
            &&& !inner.contains('"')
            &&& !inner.contains('<')
            &&& !inner.contains('>')
            &&& !inner.contains('\n')
            &&& !inner.contains('\r')
        }),
{
    reveal_strlit("\\");
    reveal_strlit(" ");
    let write = |c: char| css_char(c);
    assert forall|c: char, bad: char|
        bad == '"' || bad == '<' || bad == '>' || bad == '\n' || bad == '\r' implies !(
    #[trigger] write(c).contains(bad)) by {
        hex_is_plain(c as nat);
        let h = crate::text::hex(c as nat);
        let w = "\\"@ + h + " "@;
        assert forall|i: int| 0 <= i < w.len() implies w[i] != bad by {
            if 1 <= i && i < 1 + h.len() {
                assert(w[i] == h[i - 1]);
            }
        }
    }
    crate::text::spread_avoids(text, write, '"');
    crate::text::spread_avoids(text, write, '<');
    crate::text::spread_avoids(text, write, '>');
    crate::text::spread_avoids(text, write, '\n');
    crate::text::spread_avoids(text, write, '\r');
}

/// Whether a character is a digit or one of the letters from `a` up to `f`.
pub open spec fn is_hex_char(c: char) -> bool {
    ('0' <= c && c <= '9') || ('a' <= c && c <= 'f')
}

/// A hexadecimal number is made of digits and the letters up to `f`.
proof fn hex_is_plain(n: nat)
    ensures
        forall|i: int|
            0 <= i < crate::text::hex(n).len() ==> is_hex_char(#[trigger] crate::text::hex(n)[i]),
    decreases n,
{
    if n >= 16 {
        hex_is_plain(n / 16);
        assert forall|i: int| 0 <= i < crate::text::hex(n).len() implies is_hex_char(
            #[trigger] crate::text::hex(n)[i],
        ) by {
            if i < crate::text::hex(n / 16).len() {
                assert(is_hex_char(crate::text::hex(n / 16)[i]));
            }
        }
    }
}

/// How a run of code is shown.
#[derive(Debug, Clone, Copy, PartialEq, Eq)]
pub struct CodeStyle {
    pub color: Option<(u8, u8, u8)>,
    pub bold: bool,
    pub italic: bool,
}

/// A run of code shown alike, by the bytes it holds.
#[derive(Debug, PartialEq, Eq)]
pub struct CodeRun {
    pub range: Range<usize>,
    pub style: CodeStyle,
}

/// The style of the first of `runs` that ends after byte `offset`, if it holds the byte.
pub open spec fn style_of_byte(runs: Seq<CodeRun>, offset: int) -> Option<CodeStyle>
    decreases runs.len(),
{
    if runs.len() == 0 {
        None
    } else if runs[0].range.end > offset {
        if runs[0].range.start <= offset {
            Some(runs[0].style)
        } else {
            None
        }
    } else {
        style_of_byte(runs.drop_first(), offset)
    }
}

/// The style of the run of `runs`, which are in order, that holds byte `offset`.
pub fn style_at(runs: &Vec<CodeRun>, offset: usize) -> (style: Option<CodeStyle>)
    ensures
        style == style_of_byte(runs@, offset as int),
{
    proof {
        assert(runs@.skip(0) =~= runs@);
    }
    for i in 0..runs.len()
        invariant
            style_of_byte(runs@, offset as int) == style_of_byte(
                runs@.skip(i as int),
                offset as int,
            ),
    {
        proof {
            assert(runs@.skip(i as int).drop_first() =~= runs@.skip(i + 1));
        }
        if runs[i].range.end > offset {
            return if runs[i].range.start <= offset {
                Some(runs[i].style)
            } else {
                None
            };
        }
    }
    None
}

/// In runs that are in order and do not overlap, the style of a byte is that of the run that
/// holds it, and there is none where no run does.
pub proof fn style_is_that_of_the_run(runs: Seq<CodeRun>, offset: int, i: int)
    requires
        forall|a: int, b: int|
            0 <= a < b < runs.len() ==> (#[trigger] runs[a]).range.end <= (
            #[trigger] runs[b]).range.start,
        forall|a: int|
            0 <= a < runs.len() ==> (#[trigger] runs[a]).range.start <= runs[a].range.end,
    ensures
        0 <= i < runs.len() && runs[i].range.start <= offset < runs[i].range.end ==> style_of_byte(
            runs,
            offset,
        ) == Some(runs[i].style),
        (forall|a: int|
            0 <= a < runs.len() ==> !((#[trigger] runs[a]).range.start <= offset
                < runs[a].range.end)) ==> style_of_byte(runs, offset) is None,
    decreases runs.len(),
{
    if runs.len() > 0 {
        let rest = runs.drop_first();
        assert forall|a: int, b: int| 0 <= a < b < rest.len() implies (
        #[trigger] rest[a]).range.end <= (#[trigger] rest[b]).range.start by {
            assert(runs[a + 1].range.end <= runs[b + 1].range.start);
        }
        assert forall|a: int| 0 <= a < rest.len() implies (#[trigger] rest[a]).range.start
            <= rest[a].range.end by {
            assert(runs[a + 1].range.start <= runs[a + 1].range.end);
        }
        style_is_that_of_the_run(rest, offset, i - 1);
        if 0 < i < runs.len() {
            assert(runs[0].range.end <= runs[i].range.start);
            assert(rest[i - 1] == runs[i]);
        }
        if forall|a: int|
            0 <= a < runs.len() ==> !((#[trigger] runs[a]).range.start <= offset
                < runs[a].range.end) {
            assert forall|a: int| 0 <= a < rest.len() implies !((
            #[trigger] rest[a]).range.start <= offset < rest[a].range.end) by {
                assert(!(runs[a + 1].range.start <= offset < runs[a + 1].range.end));
            }
            assert(!(runs[0].range.start <= offset < runs[0].range.end));
        }
    }
}

/// The byte at which character `k` of `code` starts.
pub open spec fn byte_of(code: Seq<char>, k: int) -> int {
    vstd::utf8::encode_utf8(code.take(k)).len() as int
}

/// How many bytes a character takes.
pub open spec fn width(c: char) -> int {
    vstd::utf8::encode_scalar(c as u32).len() as int
}

/// How many bytes a character takes.
fn char_width(c: char) -> (bytes: usize)
    ensures
        bytes == width(c),
{
    let code = c as u32;
    if code < 0x80 {
        1
    } else if code < 0x800 {
        2
    } else if code < 0x10000 {
        3
    } else {
        4
    }
}

/// One more character adds its bytes at the end.
pub proof fn encode_push(chars: Seq<char>, c: char)
    ensures
        vstd::utf8::encode_utf8(chars.push(c)) == vstd::utf8::encode_utf8(chars)
            + vstd::utf8::encode_scalar(c as u32),
    decreases chars.len(),
{
    reveal_with_fuel(vstd::utf8::encode_utf8, 2);
    let all = chars.push(c);
    if chars.len() == 0 {
        assert(all.drop_first() =~= Seq::<char>::empty());
    } else {
        assert(all.drop_first() =~= chars.drop_first().push(c));
        encode_push(chars.drop_first(), c);
    }
}

/// A character starts where the one before it ends, and none after the last byte.
pub proof fn bytes_advance(code: Seq<char>, k: int)
    requires
        0 <= k < code.len(),
    ensures
        byte_of(code, k + 1) == byte_of(code, k) + width(code[k]),
        byte_of(code, k + 1) <= vstd::utf8::encode_utf8(code).len(),
    decreases code.len() - k,
{
    assert(code.take(k + 1) =~= code.take(k).push(code[k]));
    encode_push(code.take(k), code[k]);
    if k + 1 < code.len() {
        bytes_advance(code, k + 1);
    } else {
        assert(code.take(k + 1) =~= code);
    }
}

/// Whether one of `runs` starts or ends at byte `offset`.
pub open spec fn is_end_of_run(runs: Seq<CodeRun>, offset: int) -> bool {
    exists|i: int|
        0 <= i < runs.len() && ((#[trigger] runs[i]).range.start == offset || runs[i].range.end
            == offset)
}

/// Whether the style of the code may change before character `k`.
pub open spec fn is_cut(code: Seq<char>, light: Seq<CodeRun>, dark: Seq<CodeRun>, k: int) -> bool {
    is_end_of_run(light, byte_of(code, k)) || is_end_of_run(dark, byte_of(code, k))
}

/// The declaration of a colour under `name`.
pub open spec fn color_declaration(name: Seq<char>, style: Option<CodeStyle>) -> Seq<char> {
    match style {
        Some(CodeStyle { color: Some((red, green, blue)), .. }) => name + ":#"@
            + crate::text::hex_padded(red as nat, 2) + crate::text::hex_padded(green as nat, 2)
            + crate::text::hex_padded(blue as nat, 2) + ";"@,
        _ => Seq::empty(),
    }
}

/// The declarations of a piece of code: its two colours, and its weight and slant in the
/// light style.
pub open spec fn style_declarations(light: Option<CodeStyle>, dark: Option<CodeStyle>) -> Seq<
    char,
> {
    color_declaration("--light"@, light) + color_declaration("--dark"@, dark) + (match light {
        Some(style) if style.bold => "font-weight:bold;"@,
        _ => Seq::empty(),
    }) + (match light {
        Some(style) if style.italic => "font-style:italic;"@,
        _ => Seq::empty(),
    })
}

/// The characters of `code` from `start` up to `end`, which are shown alike.
pub open spec fn code_piece(
    code: Seq<char>,
    light: Seq<CodeRun>,
    dark: Seq<CodeRun>,
    start: int,
    end: int,
) -> Seq<char> {
    let style = style_declarations(
        style_of_byte(light, byte_of(code, start)),
        style_of_byte(dark, byte_of(code, start)),
    );
    let text = escaped(code.subrange(start, end));
    if style.len() == 0 {
        text
    } else {
        "<span style=\""@ + style + "\">"@ + text + "</span>"@
    }
}

/// The pieces of `code` from the one that starts at `start` on, none of which ends before
/// character `k`.
pub open spec fn code_pieces(
    code: Seq<char>,
    light: Seq<CodeRun>,
    dark: Seq<CodeRun>,
    start: int,
    k: int,
) -> Seq<char>
    decreases code.len() - k,
{
    if k < 0 || k > code.len() || start >= code.len() {
        Seq::empty()
    } else if k == code.len() {
        code_piece(code, light, dark, start, k)
    } else if k > start && is_cut(code, light, dark, k) {
        code_piece(code, light, dark, start, k) + code_pieces(code, light, dark, k, k + 1)
    } else {
        code_pieces(code, light, dark, start, k + 1)
    }
}

/// A code block as HTML.
pub open spec fn code_html(
    code: Seq<char>,
    info: Seq<char>,
    light: Seq<CodeRun>,
    dark: Seq<CodeRun>,
) -> Seq<char> {
    let language = crate::text::first_word_of(info);
    (if language.len() == 0 {
        "<pre><code>"@
    } else {
        "<pre><code class=\"language-"@ + escaped(language) + "\">"@
    }) + code_pieces(code, light, dark, 0, 0) + "</code></pre>\n"@
}

/// Add the offsets at which one of `runs` starts or ends to `ends`.
fn collect_ends(ends: &mut HashSet<usize>, runs: &Vec<CodeRun>)
    ensures
        forall|offset: usize| #[trigger]
            final(ends)@.contains(offset) == (old(ends)@.contains(offset) || is_end_of_run(
                runs@,
                offset as int,
            )),
{
    let ghost before = ends@;
    for i in 0..runs.len()
        invariant
            forall|offset: usize| #[trigger]
                ends@.contains(offset) == (before.contains(offset) || exists|j: int|
                    0 <= j < i && ((#[trigger] runs@[j]).range.start == offset
                        || runs@[j].range.end == offset)),
    {
        let ghost then = ends@;
        let start = runs[i].range.start;
        let end = runs[i].range.end;
        ends.insert(start);
        ends.insert(end);
        proof {
            assert forall|offset: usize| #[trigger]
                ends@.contains(offset) == (before.contains(offset) || exists|j: int|
                    0 <= j < i + 1 && ((#[trigger] runs@[j]).range.start == offset
                        || runs@[j].range.end == offset)) by {
                if offset == start || offset == end {
                    assert(runs@[i as int].range.start == offset || runs@[i as int].range.end
                        == offset);
                } else {
                    assert(ends@.contains(offset) == then.contains(offset));
                }
            }
        }
    }
}

/// Add the declaration of a colour under `name`.
fn push_color(out: &mut String, name: &str, style: Option<CodeStyle>)
    ensures
        final(out)@ == old(out)@ + color_declaration(name@, style),
{
    let ghost before = out@;
    if let Some(style) = style {
        if let Some((red, green, blue)) = style.color {
            out.append(name);
            out.append(":#");
            push_hex_padded(out, red as u64, 2);
            push_hex_padded(out, green as u64, 2);
            push_hex_padded(out, blue as u64, 2);
            out.append(";");
        }
    }
    proof {
        assert(out@ =~= before + color_declaration(name@, style));
    }
}

/// Add the characters of `code` from `start` up to `end`, which start at byte `offset`.
fn push_piece(
    out: &mut String,
    code: &Vec<char>,
    light: &Vec<CodeRun>,
    dark: &Vec<CodeRun>,
    start: usize,
    end: usize,
    offset: usize,
)
    requires
        start <= end <= code@.len(),
        offset == byte_of(code@, start as int),
    ensures
        final(out)@ == old(out)@ + code_piece(code@, light@, dark@, start as int, end as int),
{
    let ghost before = out@;
    let light_style = style_at(light, offset);
    let dark_style = style_at(dark, offset);
    let mut style = String::new();
    push_color(&mut style, "--light", light_style);
    push_color(&mut style, "--dark", dark_style);
    if let Some(light_style) = light_style {
        if light_style.bold {
            style.append("font-weight:bold;");
        }
        if light_style.italic {
            style.append("font-style:italic;");
        }
    }
    proof {
        assert(style@ =~= style_declarations(light_style, dark_style));
    }
    if style.as_str().is_empty() {
        push_escaped(out, code, start, end);
    } else {
        out.append("<span style=\"");
        out.append(style.as_str());
        out.append("\">");
        push_escaped(out, code, start, end);
        out.append("</span>");
    }
    proof {
        assert(out@ =~= before + code_piece(code@, light@, dark@, start as int, end as int));
    }
}

/// A code block, coloured with the light and the dark runs. Each span carries both colours,
/// and the stylesheet picks one for the reader's appearance.
pub fn code_block_html(code: &str, info: &str, light: &Vec<CodeRun>, dark: &Vec<CodeRun>) -> (html:
    String)
    ensures
        html@ == code_html(code@, info@, light@, dark@),
{
    let mut ends: HashSet<usize> = HashSet::new();
    collect_ends(&mut ends, light);
    collect_ends(&mut ends, dark);
    let size = code.as_bytes().len();
    let language = first_word(&chars_of(info));
    let mut html = String::new();
    if language.len() == 0 {
        html.append("<pre><code>");
    } else {
        html.append("<pre><code class=\"language-");
        push_escaped(&mut html, &language, 0, language.len());
        html.append("\">");
    }
    let ghost opening = html@;
    proof {
        assert(language@.subrange(0, language@.len() as int) =~= language@);
        assert(opening =~= if language@.len() == 0 {
            "<pre><code>"@
        } else {
            "<pre><code class=\"language-"@ + escaped(language@) + "\">"@
        });
    }
    let chars = chars_of(code);
    let mut start: usize = 0;
    let mut start_byte: usize = 0;
    let mut at: usize = 0;
    let mut byte: usize = 0;
    proof {
        assert(vstd::utf8::encode_utf8(code@.take(0)) =~= Seq::<u8>::empty());
    }
    while at < chars.len()
        invariant
            chars@ == code@,
            start <= at <= chars@.len(),
            at > start || at == 0,
            size == vstd::utf8::encode_utf8(code@).len(),
            byte == byte_of(code@, at as int),
            start_byte == byte_of(code@, start as int),
            byte <= size,
            forall|offset: usize| #[trigger]
                ends@.contains(offset) == (is_end_of_run(light@, offset as int) || is_end_of_run(
                    dark@,
                    offset as int,
                )),
            html@ + code_pieces(code@, light@, dark@, start as int, at as int) == opening
                + code_pieces(code@, light@, dark@, 0, 0),
        decreases chars@.len() - at,
    {
        let ghost before = html@;
        proof {
            bytes_advance(code@, at as int);
        }
        if at > start && ends.contains(&byte) {
            push_piece(&mut html, &chars, light, dark, start, at, start_byte);
            proof {
                let piece = code_piece(code@, light@, dark@, start as int, at as int);
                let rest = code_pieces(code@, light@, dark@, at as int, at + 1);
                assert(before + (piece + rest) =~= html@ + rest);
            }
            start = at;
            start_byte = byte;
        }
        byte = byte + char_width(chars[at]);
        at += 1;
    }
    if start < chars.len() {
        push_piece(&mut html, &chars, light, dark, start, at, start_byte);
    } else {
        proof {
            assert(html@ + Seq::<char>::empty() =~= html@);
        }
    }
    html.append("</code></pre>\n");
    html
}

}
