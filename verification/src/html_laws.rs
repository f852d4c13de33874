//! What holds of all raw HTML, and of what is written as HTML.

use crate::export::{
    code_piece, code_pieces, escaped, escaped_char, is_cut, CodeRun, CodeStyle,
};
use crate::html::{
    collapsed, html_text, is_end_tag, is_hidden, part_of, parts_of, raw_parts, run_end, stripped,
    style_of, tag_name, tidied, HtmlPart, HtmlStyle, PartView, Stop,
};
use crate::text::{
    drop_end, drop_start, find_at, found_first, is_white, lowered, spread, stands_at,
};
use vstd::prelude::*;

verus! {

/// Text without tags is kept as it is.
pub proof fn text_without_tags_is_kept(chunk: Seq<char>)
    requires
        !chunk.contains('<'),
    ensures
        html_text(chunk) == chunk,
{
    reveal_strlit("<");
    found_first(chunk, 0, "<"@);
    if let Some(at) = find_at(chunk, 0, "<"@) {
        assert(chunk.subrange(at, at + 1)[0] == '<');
        assert(chunk[at] == '<');
    }
    assert(chunk.skip(0) =~= chunk);
}

/// A part is found in the rest of a text where it is found in the text.
proof fn finds_move(text: Seq<char>, from: int, by: int, part: Seq<char>)
    requires
        0 <= by <= from,
        by <= text.len(),
    ensures
        find_at(text.skip(by), from - by, part) == match find_at(text, from, part) {
            Some(at) => Some(at - by),
            None => None,
        },
    decreases text.len() + 1 - from,
{
    let rest = text.skip(by);
    if from <= text.len() {
        if from + part.len() <= text.len() {
            assert(rest.subrange(from - by, from - by + part.len()) =~= text.subrange(
                from,
                from + part.len(),
            ));
        }
        if !stands_at(text, from, part) {
            finds_move(text, from + 1, by, part);
        }
    }
}

/// What stands in the rest of a text stands in the text.
proof fn stands_move(text: Seq<char>, at: int, by: int, part: Seq<char>)
    requires
        0 <= by <= at,
        by <= text.len(),
    ensures
        stands_at(text.skip(by), at - by, part) == stands_at(text, at, part),
{
    if at + part.len() <= text.len() {
        assert(text.skip(by).subrange(at - by, at - by + part.len()) =~= text.subrange(
            at,
            at + part.len(),
        ));
    }
}

/// The readable text of a chunk from a place on is that of what follows the place.
proof fn texts_move(chunk: Seq<char>, at: int, by: int)
    requires
        0 <= by <= at,
        by <= chunk.len(),
    ensures
        stripped(chunk.skip(by), at - by) == stripped(chunk, at),
    decreases chunk.len() + 1 - at,
{
    reveal_strlit("<");
    reveal_strlit(">");
    reveal_strlit("-->");
    let rest = chunk.skip(by);
    if at <= chunk.len() {
        finds_move(chunk, at, by, "<"@);
        found_first(chunk, at, "<"@);
        assert(rest.skip(at - by) =~= chunk.skip(at));
        if let Some(start) = find_at(chunk, at, "<"@) {
            assert(rest.subrange(at - by, start - by) =~= chunk.subrange(at, start));
            stands_move(chunk, start, by, "<!--"@);
            finds_move(chunk, start, by, "-->"@);
            finds_move(chunk, start, by, ">"@);
            found_first(chunk, start, "-->"@);
            found_first(chunk, start, ">"@);
            if stands_at(chunk, start, "<!--"@) {
                if let Some(end) = find_at(chunk, start, "-->"@) {
                    texts_move(chunk, end + 3, by);
                }
            } else if let Some(end) = find_at(chunk, start, ">"@) {
                let tag = chunk.subrange(start + 1, end);
                if end > start {
                    assert(rest.subrange(start - by + 1, end - by) =~= tag);
                } else {
                    assert(chunk.subrange(start, start + 1)[0] == '<');
                    assert(chunk.subrange(end, end + 1)[0] == '>');
                }
                let name = tag_name(tag);
                crate::html::element_ends(chunk, end + 1, name);
                assert(lowered(rest) =~= lowered(chunk).skip(by));
                finds_move(lowered(chunk), end + 1, by, "</"@ + name);
                found_first(lowered(chunk), end + 1, "</"@ + name);
                if let Some(close) = find_at(lowered(chunk), end + 1, "</"@ + name) {
                    finds_move(chunk, close, by, ">"@);
                    found_first(chunk, close, ">"@);
                }
                if let Some(after) = crate::html::element_end(chunk, end + 1, name) {
                    texts_move(chunk, after, by);
                }
                texts_move(chunk, end + 1, by);
            }
        }
    }
}

/// A tag is taken out of the text around it, which is kept as it is, and leaves a line break
/// behind if it is a `br`.
pub proof fn tags_are_taken_out(before: Seq<char>, tag: Seq<char>, after: Seq<char>)
    requires
        !before.contains('<'),
        !tag.contains('>'),
        tag.len() == 0 || tag[0] != '!',
        !is_hidden(tag),
    ensures
        html_text(before + seq!['<'] + tag + seq!['>'] + after) == before + (
        if crate::html::bare_name(tag) == "br"@ {
            "\n"@
        } else {
            Seq::empty()
        }) + html_text(after),
{
    reveal_strlit("<");
    reveal_strlit(">");
    reveal_strlit("<!--");
    let chunk = before + seq!['<'] + tag + seq!['>'] + after;
    let start = before.len() as int;
    let end = start + 1 + tag.len();
    found_first(chunk, 0, "<"@);
    found_first(chunk, start, ">"@);
    assert(chunk.subrange(start, start + 1) =~= "<"@);
    assert(chunk.subrange(end, end + 1) =~= ">"@);
    assert(stands_at(chunk, start, "<"@));
    assert(stands_at(chunk, end, ">"@));
    let found = find_at(chunk, 0, "<"@)->0;
    assert(found == start) by {
        if found < start {
            assert(chunk.subrange(found, found + 1)[0] == '<');
            assert(before[found] == '<');
        }
    }
    let ended = find_at(chunk, start, ">"@)->0;
    assert(ended == end) by {
        if ended < end {
            assert(chunk.subrange(ended, ended + 1)[0] == '>');
            if ended > start {
                assert(tag[ended - start - 1] == '>');
            }
        }
    }
    assert(!stands_at(chunk, start, "<!--"@)) by {
        if stands_at(chunk, start, "<!--"@) {
            assert(chunk.subrange(start, start + 4)[1] == '!');
            assert(chunk[start + 1] == '!');
        }
    }
    assert(chunk.subrange(start + 1, end) =~= tag);
    assert(chunk.subrange(0, start) =~= before);
    assert(chunk.skip(end + 1) =~= after);
    texts_move(chunk, end + 1, end + 1);
}

/// An element that text is written with to give it a style is read as that style, and so is the
/// short name of the element.
pub proof fn styles_are_read_as_written(style: HtmlStyle)
    ensures
        style_of(style.name()) == Some(style),
        style_of("b"@) == style_of(HtmlStyle::Bold.name()),
        style_of("i"@) == style_of(HtmlStyle::Italic.name()),
        style_of("s"@) == style_of(HtmlStyle::Strikethrough.name()),
        style_of("ins"@) == style_of(HtmlStyle::Underline.name()),
{
    reveal_strlit("b");
    reveal_strlit("strong");
    reveal_strlit("i");
    reveal_strlit("em");
    reveal_strlit("s");
    reveal_strlit("del");
    reveal_strlit("u");
    reveal_strlit("ins");
    reveal_strlit("code");
    reveal_strlit("kbd");
    reveal_strlit("sup");
    reveal_strlit("sub");
    reveal_strlit("mark");
    assert("b"@[0] == 'b' && "strong"@[0] == 's' && "i"@[0] == 'i' && "em"@[0] == 'e' && "s"@[0]
        == 's' && "del"@[0] == 'd' && "u"@[0] == 'u' && "ins"@[0] == 'i' && "code"@[0] == 'c'
        && "kbd"@[0] == 'k' && "sup"@[2] == 'p' && "sub"@[2] == 'b' && "mark"@[0] == 'm');
    assert("sup"@ != "sub"@);
    assert("sup"@.len() == 3 && "sub"@.len() == 3 && "s"@.len() == 1 && "strong"@.len() == 6
        && "i"@.len() == 1 && "ins"@.len() == 3 && "del"@.len() == 3 && "u"@.len() == 1
        && "b"@.len() == 1 && "em"@.len() == 2);
    assert("ins"@[0] == 'i');
}

/// A run in the rest of a tag ends where it ends in the tag.
proof fn runs_move(tag: Seq<char>, at: int, stop: Stop)
    requires
        0 <= at <= tag.len(),
    ensures
        run_end(seq!['/'] + tag, at + 1, stop) == run_end(tag, at, stop) + 1,
    decreases tag.len() - at,
{
    let closing = seq!['/'] + tag;
    if at < tag.len() {
        assert(closing[at + 1] == tag[at]);
        runs_move(tag, at + 1, stop);
    }
}

/// What a tag starts, the same tag with a slash ends.
pub proof fn end_tags_end_what_start_tags_start(tag: Seq<char>)
    requires
        !is_end_tag(tag),
    ensures
        ({
            let end = part_of(seq!['/'] + tag);
            match part_of(tag) {
                Some(HtmlPart::StyleStart(style)) => end == Some(
                    HtmlPart::<Seq<char>>::StyleEnd(style),
                ),
                Some(HtmlPart::DetailsStart { .. }) => end == Some(
                    HtmlPart::<Seq<char>>::DetailsEnd,
                ),
                Some(HtmlPart::SummaryStart) => end == Some(HtmlPart::<Seq<char>>::SummaryEnd),
                Some(HtmlPart::BlockStart(block)) => end == Some(
                    HtmlPart::<Seq<char>>::BlockEnd { paragraph: block.paragraph },
                ),
                Some(HtmlPart::Text(text)) => text == "\n"@ && end == Some(HtmlPart::Text("\n"@)),
                Some(_) => false,
                None => end is None,
            }
        }),
{
    let closing = seq!['/'] + tag;
    runs_move(tag, 0, Stop::NameEnd);
    crate::html::run_ends(tag, 0, Stop::NameEnd);
    let end = run_end(tag, 0, Stop::NameEnd);
    assert(closing.subrange(1, end + 1) =~= tag.subrange(0, end));
    assert(tag_name(closing) == tag_name(tag));
}

/// The characters of a text that show.
pub open spec fn dark(text: Seq<char>) -> Seq<char> {
    text.filter(|c: char| !is_white(c))
}

/// White space that is made one keeps every other character, in order, and leaves no white space
/// but single spaces.
pub proof fn white_space_is_made_one(text: Seq<char>)
    ensures
        dark(collapsed(text)) == dark(text),
        forall|i: int|
            0 <= i < collapsed(text).len() && is_white(#[trigger] collapsed(text)[i])
                ==> collapsed(text)[i] == ' ',
        forall|i: int|
            0 < i < collapsed(text).len() && #[trigger] collapsed(text)[i] == ' ' ==> collapsed(
                text,
            )[i - 1] != ' ',
    decreases text.len(),
{
    reveal(Seq::filter);
    if text.len() > 0 {
        white_space_is_made_one(text.drop_last());
        let before = collapsed(text.drop_last());
        let after = collapsed(text);
        if after != before {
            let last = after.last();
            assert(after =~= before.push(last));
            assert(after.drop_last() =~= before);
        }
    }
}

/// The text that HTML text stands for: the characters that are written as entities are those
/// characters again.
pub open spec fn unescaped(html: Seq<char>) -> Seq<char>
    decreases html.len(),
{
    proof {
        reveal_strlit("&amp;");
        reveal_strlit("&lt;");
        reveal_strlit("&gt;");
        reveal_strlit("&quot;");
    }
    if html.len() == 0 {
        Seq::empty()
    } else if stands_at(html, 0, "&amp;"@) {
        seq!['&'] + unescaped(html.skip(5))
    } else if stands_at(html, 0, "&lt;"@) {
        seq!['<'] + unescaped(html.skip(4))
    } else if stands_at(html, 0, "&gt;"@) {
        seq!['>'] + unescaped(html.skip(4))
    } else if stands_at(html, 0, "&quot;"@) {
        seq!['"'] + unescaped(html.skip(6))
    } else {
        seq![html[0]] + unescaped(html.skip(1))
    }
}

/// A text that is spread starts with what its first character is written as.
proof fn spreads_start(text: Seq<char>)
    requires
        text.len() > 0,
    ensures
        escaped(text) == escaped_char(text[0]) + escaped(text.skip(1)),
    decreases text.len(),
{
    let write = |c: char| escaped_char(c);
    if text.len() == 1 {
        assert(text.drop_last() =~= Seq::<char>::empty());
        assert(text.skip(1) =~= Seq::<char>::empty());
        assert(text =~= Seq::<char>::empty().push(text[0]));
        crate::text::spread_push(Seq::empty(), text[0], write);
        assert(spread(Seq::<char>::empty(), write) =~= Seq::<char>::empty());
        assert(escaped(text) =~= escaped_char(text[0]) + escaped(text.skip(1)));
    } else {
        let last = text.last();
        spreads_start(text.drop_last());
        assert(text =~= text.drop_last().push(last));
        crate::text::spread_push(text.drop_last(), last, write);
        assert(text.skip(1) =~= text.drop_last().skip(1).push(last));
        crate::text::spread_push(text.drop_last().skip(1), last, write);
        assert(escaped(text) =~= escaped_char(text[0]) + escaped(text.skip(1)));
    }
}

/// Text that is written as HTML reads as that text: nothing of it is lost or changed.
pub proof fn escaped_text_reads_back(text: Seq<char>)
    ensures
        unescaped(escaped(text)) == text,
    decreases text.len(),
{
    reveal_strlit("&amp;");
    reveal_strlit("&lt;");
    reveal_strlit("&gt;");
    reveal_strlit("&quot;");
    if text.len() == 0 {
        assert(escaped(text) =~= Seq::<char>::empty());
        assert(unescaped(escaped(text)) =~= text);
    } else {
        spreads_start(text);
        let rest = escaped(text.skip(1));
        escaped_text_reads_back(text.skip(1));
        let html = escaped(text);
        let first = escaped_char(text[0]);
        let n = first.len() as int;
        assert(html.skip(n) =~= rest);
        assert(html.subrange(0, n) =~= first);
        if text[0] == '&' || text[0] == '<' || text[0] == '>' || text[0] == '"' {
            assert(html[1] == first[1]);
            assert(stands_at(html, 0, first));
            if stands_at(html, 0, "&amp;"@) {
                assert(html.subrange(0, 5)[1] == 'a');
            }
            if stands_at(html, 0, "&lt;"@) {
                assert(html.subrange(0, 4)[1] == 'l');
            }
            if stands_at(html, 0, "&gt;"@) {
                assert(html.subrange(0, 4)[1] == 'g');
            }
        } else {
            assert(html[0] == text[0]);
            if stands_at(html, 0, "&amp;"@) {
                assert(html.subrange(0, 5)[0] == '&');
            }
            if stands_at(html, 0, "&lt;"@) {
                assert(html.subrange(0, 4)[0] == '&');
            }
            if stands_at(html, 0, "&gt;"@) {
                assert(html.subrange(0, 4)[0] == '&');
            }
            if stands_at(html, 0, "&quot;"@) {
                assert(html.subrange(0, 6)[0] == '&');
            }
        }
        assert(seq![text[0]] + text.skip(1) =~= text);
    }
}

/// Code without styles is written as it is: nothing of it is lost or changed.
pub proof fn code_without_styles_is_written_whole(code: Seq<char>, start: int, k: int)
    requires
        0 <= start <= k <= code.len(),
    ensures
        code_pieces(code, Seq::empty(), Seq::empty(), start, k) == escaped(code.skip(start)),
    decreases code.len() - k,
{
    let none = Seq::<CodeRun>::empty();
    if start >= code.len() {
        assert(code.skip(start) =~= Seq::<char>::empty());
        assert(escaped(code.skip(start)) =~= Seq::<char>::empty());
    } else if k == code.len() {
        assert(code.subrange(start, k) =~= code.skip(start));
        assert(code_piece(code, none, none, start, k) == escaped(code.skip(start)));
    } else {
        assert(!is_cut(code, none, none, k));
        code_without_styles_is_written_whole(code, start, k + 1);
    }
}

/// A tag on its own is the part it stands for, or none.
pub proof fn lone_tags_are_one_part(tag: Seq<char>)
    requires
        !tag.contains('>'),
        tag.len() == 0 || tag[0] != '!',
        !is_hidden(tag),
    ensures
        parts_of(seq!['<'] + tag + seq!['>']) == match part_of(tag) {
            Some(part) => seq![part],
            None => Seq::<PartView>::empty(),
        },
{
    reveal_strlit("<");
    reveal_strlit(">");
    reveal_strlit("<!--");
    reveal_strlit("\n");
    let chunk = seq!['<'] + tag + seq!['>'];
    let end = 1 + tag.len() as int;
    found_first(chunk, 0, "<"@);
    found_first(chunk, 0, ">"@);
    assert(chunk.subrange(0, 1) =~= "<"@);
    assert(stands_at(chunk, 0, "<"@));
    assert(chunk.subrange(end, end + 1) =~= ">"@);
    assert(stands_at(chunk, end, ">"@));
    let ended = find_at(chunk, 0, ">"@)->0;
    assert(ended == end) by {
        if ended < end {
            assert(chunk.subrange(ended, ended + 1)[0] == '>');
            if ended > 0 {
                assert(tag[ended - 1] == '>');
            }
        }
    }
    assert(!stands_at(chunk, 0, "<!--"@)) by {
        if stands_at(chunk, 0, "<!--"@) {
            assert(chunk.subrange(0, 4)[1] == '!');
            assert(chunk[1] == '!');
        }
    }
    assert(chunk.subrange(1, end) =~= tag);
    assert(chunk.subrange(0, 0) =~= Seq::<char>::empty());
    found_first(chunk, end + 1, "<"@);
    if let Some(at) = find_at(chunk, end + 1, "<"@) {
        assert(at + 1 <= chunk.len());
    }
    assert(chunk.skip(end + 1) =~= Seq::<char>::empty());
    assert(raw_parts(chunk, end + 1) =~= Seq::<PartView>::empty());
    let raw = raw_parts(chunk, 0);
    let parts = match part_of(tag) {
        Some(part) => seq![part],
        None => Seq::empty(),
    };
    assert(raw =~= parts);
    reveal_with_fuel(tidied, 2);
    match part_of(tag) {
        Some(part) => {
            if let HtmlPart::Text(text) = part {
                assert(text == "\n"@);
                assert(text[0] == '\n' && text.last() == '\n' && text.len() == 1);
                assert(crate::html::shown_text(raw, 0, text) == text);
            }
            assert(tidied(raw, 1) =~= parts);
        },
        None => {},
    }
}

/// Raw HTML without tags is its text with its white space made one and none at its ends.
pub proof fn html_without_tags_is_text(chunk: Seq<char>)
    requires
        !chunk.contains('<'),
        !chunk.contains(':'),
    ensures
        ({
            let text = drop_end(drop_start(collapsed(chunk), ' '), ' ');
            parts_of(chunk) == if text.len() == 0 {
                Seq::<PartView>::empty()
            } else {
                seq![HtmlPart::Text(text)]
            }
        }),
{
    reveal_strlit("<");
    found_first(chunk, 0, "<"@);
    if let Some(at) = find_at(chunk, 0, "<"@) {
        assert(chunk.subrange(at, at + 1)[0] == '<');
        assert(chunk[at] == '<');
    }
    assert(chunk.skip(0) =~= chunk);
    let text = collapsed(chunk);
    collapsed_avoids(chunk, ':');
    let found = crate::emoji::emoji_in(text, Seq::empty());
    crate::emoji::text_without_colons_stays(text, found, 0);
    let raw = raw_parts(chunk, 0);
    reveal_with_fuel(tidied, 2);
    if chunk.len() == 0 {
        assert(text =~= Seq::<char>::empty());
        assert(raw =~= Seq::<PartView>::empty());
        assert(parts_of(chunk) =~= Seq::<PartView>::empty());
        assert(drop_end(drop_start(text, ' '), ' ').len() == 0);
    } else {
        assert(raw =~= seq![HtmlPart::Text(text)]);
        let shown = drop_end(drop_start(text, ' '), ' ');
        assert(crate::html::shown_text(raw, 0, text) == shown);
        assert(tidied(raw, 0) =~= Seq::<PartView>::empty());
        if shown.len() > 0 {
            assert(tidied(raw, 1) =~= seq![HtmlPart::Text(shown)]);
        }
    }
}

/// Making white space one brings in no character but spaces.
proof fn collapsed_avoids(text: Seq<char>, c: char)
    requires
        !text.contains(c),
        c != ' ',
    ensures
        !collapsed(text).contains(c),
    decreases text.len(),
{
    if text.len() > 0 {
        let rest = text.drop_last();
        if rest.contains(c) {
            let i = rest.index_of(c);
            assert(text[i] == c);
        }
        collapsed_avoids(rest, c);
        assert(text[text.len() - 1] != c);
        let before = collapsed(rest);
        let after = collapsed(text);
        if after.contains(c) {
            let i = after.index_of(c);
            if i < before.len() {
                assert(before[i] == c);
            }
        }
    }
}

/// A page holds its title as text, its stylesheet and its body as they are, in that order.
pub proof fn pages_hold_their_parts(title: Seq<char>, css: Seq<char>, body: Seq<char>) -> (places: (
    int,
    int,
    int,
))
    ensures
        ({
            let page = crate::page::page(title, css, body);
            let (first, second, third) = places;
            &&& 0 <= first && first + escaped(title).len() < second && second + css.len() < third
            &&& stands_at(page, first, escaped(title) + "</title>"@)
            &&& stands_at(page, second, css + "\n</style>"@)
            &&& stands_at(page, third, body + "</main>"@)
        }),
{
    reveal_strlit("</title>\n<style>");
    reveal_strlit("</title>");
    reveal_strlit("\n</style>\n</head>\n<body>\n<main>\n");
    reveal_strlit("\n</style>");
    reveal_strlit("</main>\n</body>\n</html>\n");
    reveal_strlit("</main>");
    let head =
        "<!DOCTYPE html>\n<html>\n<head>\n<meta charset=\"utf-8\">\n<meta name=\"viewport\" content=\"width=device-width, initial-scale=1\">\n<title>"@;
    let page = crate::page::page(title, css, body);
    let first = head.len() as int;
    let second = first + escaped(title).len() + "</title>\n<style>"@.len();
    let third = second + css.len() + "\n</style>\n</head>\n<body>\n<main>\n"@.len();
    let one = escaped(title) + "</title>"@;
    let two = css + "\n</style>"@;
    let three = body + "</main>"@;
    assert(page.subrange(first, first + one.len()) =~= one);
    assert(page.subrange(second, second + two.len()) =~= two);
    assert(page.subrange(third, third + three.len()) =~= three);
    (first, second, third)
}

/// A text that CSS needs nothing of written otherwise is written as it is, in quotes.
pub proof fn plain_css_text_is_only_quoted(text: Seq<char>)
    requires
        forall|i: int|
            0 <= i < text.len() ==> #[trigger] text[i] != '"' && text[i] != '\\' && text[i] != '<'
                && text[i] != '>' && text[i] != '\n' && text[i] != '\r',
    ensures
        crate::export::css_text(text) == "\""@ + text + "\""@,
{
    css_characters_stay(text);
}

/// A text that CSS needs nothing of written otherwise.
proof fn css_characters_stay(text: Seq<char>)
    requires
        forall|i: int|
            0 <= i < text.len() ==> #[trigger] text[i] != '"' && text[i] != '\\' && text[i] != '<'
                && text[i] != '>' && text[i] != '\n' && text[i] != '\r',
    ensures
        spread(text, |c: char| crate::export::css_char(c)) == text,
    decreases text.len(),
{
    let write = |c: char| crate::export::css_char(c);
    if text.len() == 0 {
        assert(spread(text, write) =~= text);
    } else {
        let rest = text.drop_last();
        assert forall|i: int| 0 <= i < rest.len() implies #[trigger] rest[i] != '"' && rest[i]
            != '\\' && rest[i] != '<' && rest[i] != '>' && rest[i] != '\n' && rest[i] != '\r' by {
            assert(rest[i] == text[i]);
        }
        css_characters_stay(rest);
        assert(text[text.len() - 1] != '"');
        assert(rest + seq![text.last()] =~= text);
    }
}

/// Code without styles is written whole, under the language that the first word of its fence
/// names, if it has one.
pub proof fn code_is_written_under_its_language(code: Seq<char>, info: Seq<char>)
    ensures
        ({
            let html = crate::export::code_html(code, info, Seq::empty(), Seq::empty());
            let language = crate::text::first_word_of(info);
            &&& language.len() == 0 ==> html == "<pre><code>"@ + escaped(code)
                + "</code></pre>\n"@
            &&& language.len() > 0 ==> html == "<pre><code class=\"language-"@ + escaped(language)
                + "\">"@ + escaped(code) + "</code></pre>\n"@
        }),
{
    code_without_styles_is_written_whole(code, 0, 0);
    assert(code.skip(0) =~= code);
}

/// A piece of code without colours is in bold exactly if its style is, and in italics exactly if it
/// is; its colours are those of its light and its dark style.
pub proof fn code_is_declared_as_styled(light: CodeStyle, dark: CodeStyle)
    ensures
        light.color is None && dark.color is None ==> crate::export::style_declarations(
            Some(light),
            Some(dark),
        ) == (if light.bold {
            "font-weight:bold;"@
        } else {
            Seq::empty()
        }) + (if light.italic {
            "font-style:italic;"@
        } else {
            Seq::empty()
        }),
        !light.bold && !light.italic ==> crate::export::style_declarations(
            Some(light),
            Some(dark),
        ) == crate::export::color_declaration("--light"@, Some(light))
            + crate::export::color_declaration("--dark"@, Some(dark)),
        light.color matches Some((red, green, blue)) ==> crate::export::color_declaration(
            "--light"@,
            Some(light),
        ) == "--light"@ + ":#"@ + crate::text::hex_padded(red as nat, 2) + crate::text::hex_padded(
            green as nat,
            2,
        ) + crate::text::hex_padded(blue as nat, 2) + ";"@,
{
    let all = crate::export::style_declarations(Some(light), Some(dark));
    if light.color is None && dark.color is None {
        assert(all =~= (if light.bold {
            "font-weight:bold;"@
        } else {
            Seq::empty()
        }) + (if light.italic {
            "font-style:italic;"@
        } else {
            Seq::empty()
        }));
    }
    if !light.bold && !light.italic {
        assert(all =~= crate::export::color_declaration("--light"@, Some(light))
            + crate::export::color_declaration("--dark"@, Some(dark)));
    }
}

}
