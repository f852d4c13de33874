//! The raw HTML of a document: its text, and the few elements of it that are shown.

use crate::emoji::{emoji_text, with_emoji};
use crate::text::{
    chars_of, cut_ends, drop_end, drop_start, find, find_at, has_at, lower_chars, lowered, same_chars,
    stands_at, trim, trimmed,
};
use vstd::prelude::*;
use vstd::string::*;

verus! {

/// The name of the tag whose inside is `tag`: what is left without slashes and white space
/// at its ends, in lower case.
pub open spec fn bare_name(tag: Seq<char>) -> Seq<char> {
    lowered(trim(drop_end(drop_start(tag, '/'), '/')))
}

/// The readable text of a raw HTML chunk from `at` on: tags removed, `<br>` turned into a
/// line break, comments, scripts and style sheets removed whole, and a tag that does not end
/// kept as it is.
pub open spec fn stripped(chunk: Seq<char>, at: int) -> Seq<char>
    decreases chunk.len() - at,
{
    if at < 0 || at > chunk.len() {
        Seq::empty()
    } else {
        proof {
            crate::text::found_first(chunk, at, "<"@);
            reveal_strlit("<");
        }
        match find_at(chunk, at, "<"@) {
            None => chunk.skip(at),
            Some(start) => {
                let text = chunk.subrange(at, start);
                proof {
                    crate::text::found_first(chunk, start, "-->"@);
                    crate::text::found_first(chunk, start, ">"@);
                    reveal_strlit("-->");
                    reveal_strlit(">");
                }
                if stands_at(chunk, start, "<!--"@) {
                    match find_at(chunk, start, "-->"@) {
                        Some(end) => text + stripped(chunk, end + 3),
                        None => text,
                    }
                } else {
                    match find_at(chunk, start, ">"@) {
                        None => chunk.skip(at),
                        Some(end) => {
                            let tag = chunk.subrange(start + 1, end);
                            proof {
                                element_ends(chunk, end + 1, tag_name(tag));
                            }
                            if is_hidden(tag) {
                                match element_end(chunk, end + 1, tag_name(tag)) {
                                    Some(after) => text + stripped(chunk, after),
                                    None => text,
                                }
                            } else {
                                text + (if bare_name(tag) == "br"@ {
                                    "\n"@
                                } else {
                                    Seq::empty()
                                }) + stripped(chunk, end + 1)
                            }
                        },
                    }
                }
            },
        }
    }
}

/// The readable text of a raw HTML chunk: tags removed, `<br>` turned into a line break, and
/// nothing of scripts and style sheets.
pub open spec fn html_text(chunk: Seq<char>) -> Seq<char> {
    stripped(chunk, 0)
}

/// The readable text of a raw HTML chunk: tags removed, `<br>` turned into a line break, and
/// nothing of scripts and style sheets. The preview cannot lay out HTML, but dropping the chunk
/// outright lost the text inside it and ran the surrounding words together.
pub fn strip_html(chunk: &str) -> (text: String)
    ensures
        text@ == html_text(chunk@),
{
    let chars = chars_of(chunk);
    let less = chars_of("<");
    let greater = chars_of(">");
    let comment = chars_of("<!--");
    let comment_end = chars_of("-->");
    let br = chars_of("br");
    let mut text = String::new();
    let mut at: usize = 0;
    proof {
        reveal_strlit("<");
        reveal_strlit(">");
        reveal_strlit("-->");
        assert(text@ + stripped(chars@, 0) =~= stripped(chars@, 0));
    }
    loop
        invariant
            at <= chars.len(),
            chars@ == chunk@,
            less@ == "<"@,
            greater@ == ">"@,
            comment@ == "<!--"@,
            comment_end@ == "-->"@,
            comment_end@.len() == 3,
            greater@.len() == 1,
            less@.len() == 1,
            less@[0] == '<',
            greater@[0] == '>',
            br@ == "br"@,
            text@ + stripped(chars@, at as int) == html_text(chunk@),
        decreases chars@.len() - at,
    {
        let ghost before = text@;
        let start = match find(&chars, at, &less) {
            Some(start) => start,
            None => {
                push_range(&mut text, &chars, at, chars.len());
                proof {
                    assert(chars@.subrange(at as int, chars@.len() as int) =~= chars@.skip(
                        at as int,
                    ));
                }
                return text;
            },
        };
        if has_at(&chars, start, &comment) {
            push_range(&mut text, &chars, at, start);
            match find(&chars, start, &comment_end) {
                Some(end) => {
                    proof {
                        assert(before + (chars@.subrange(at as int, start as int) + stripped(
                            chars@,
                            end + 3,
                        )) =~= text@ + stripped(chars@, end + 3));
                    }
                    at = end + 3;
                },
                None => {
                    return text;
                },
            }
        } else {
            match find(&chars, start, &greater) {
                None => {
                    push_range(&mut text, &chars, at, chars.len());
                    proof {
                        assert(chars@.subrange(at as int, chars@.len() as int) =~= chars@.skip(
                            at as int,
                        ));
                    }
                    return text;
                },
                Some(end) => {
                    push_range(&mut text, &chars, at, start);
                    proof {
                        assert(start != end) by {
                            assert(chars@.subrange(start as int, start + less@.len())[0] == '<');
                            assert(chars@.subrange(end as int, end + greater@.len())[0] == '>');
                        }
                    }
                    let tag = copy_range(&chars, start + 1, end);
                    let (tag_called, _) = read_name(&tag);
                    let is_end = tag.len() > 0 && tag[0] == '/';
                    if !is_end && (is_name(&tag_called, "script") || is_name(
                        &tag_called,
                        "style",
                    )) {
                        proof {
                            element_ends(chars@, end + 1, tag_called@);
                        }
                        match find_element_end(&chars, end + 1, &tag_called) {
                            Some(after) => {
                                proof {
                                    assert(before + (chars@.subrange(at as int, start as int)
                                        + stripped(chars@, after as int)) =~= text@ + stripped(
                                        chars@,
                                        after as int,
                                    ));
                                }
                                at = after;
                            },
                            None => {
                                return text;
                            },
                        }
                    } else {
                        let bare = cut_ends(&chars, start + 1, end, '/');
                        let name = lower_chars(&trimmed(&bare));
                        let ghost line = if name@ == "br"@ {
                            "\n"@
                        } else {
                            Seq::<char>::empty()
                        };
                        if same_chars(&name, &br) {
                            text.append("\n");
                        }
                        proof {
                            assert(before + (chars@.subrange(at as int, start as int) + line
                                + stripped(chars@, end + 1)) =~= text@ + stripped(
                                chars@,
                                end + 1,
                            ));
                        }
                        at = end + 1;
                    }
                },
            }
        }
    }
}

/// Whether a raw HTML chunk holds nothing but markup: no text but white space.
pub open spec fn is_markup(chunk: Seq<char>) -> bool {
    trim(html_text(chunk)).len() == 0
}

/// Whether a raw HTML chunk holds nothing but markup: no text but white space.
pub fn holds_markup(chunk: &str) -> (found: bool)
    ensures
        found == is_markup(chunk@),
{
    trimmed(&chars_of(strip_html(chunk).as_str())).len() == 0
}

/// Add the characters of `chars` from `start` up to `end` to `text`.
pub fn push_range(text: &mut String, chars: &Vec<char>, start: usize, end: usize)
    requires
        start <= end <= chars@.len(),
    ensures
        final(text)@ == old(text)@ + chars@.subrange(start as int, end as int),
{
    let ghost before = text@;
    for i in start..end
        invariant
            start <= end <= chars@.len(),
            text@ == before + chars@.subrange(start as int, i as int),
    {
        proof {
            assert(before + chars@.subrange(start as int, i + 1) =~= (before + chars@.subrange(
                start as int,
                i as int,
            )).push(chars@[i as int]));
        }
        text.push(chars[i]);
    }
}

/// A style raw HTML gives text.
#[derive(Debug, Clone, Copy, PartialEq, Eq, Structural)]
pub enum HtmlStyle {
    Bold,
    Italic,
    Strikethrough,
    Underline,
    Code,
    Keyboard,
    Superscript,
    Subscript,
    Mark,
}

impl HtmlStyle {
    /// The element that gives text the style.
    pub open spec fn name(self) -> Seq<char> {
        match self {
            HtmlStyle::Bold => "strong"@,
            HtmlStyle::Italic => "em"@,
            HtmlStyle::Strikethrough => "del"@,
            HtmlStyle::Underline => "u"@,
            HtmlStyle::Code => "code"@,
            HtmlStyle::Keyboard => "kbd"@,
            HtmlStyle::Superscript => "sup"@,
            HtmlStyle::Subscript => "sub"@,
            HtmlStyle::Mark => "mark"@,
        }
    }

    /// The element that gives text the style.
    pub fn element(self) -> (name: &'static str)
        ensures
            name@ == self.name(),
    {
        match self {
            HtmlStyle::Bold => "strong",
            HtmlStyle::Italic => "em",
            HtmlStyle::Strikethrough => "del",
            HtmlStyle::Underline => "u",
            HtmlStyle::Code => "code",
            HtmlStyle::Keyboard => "kbd",
            HtmlStyle::Superscript => "sup",
            HtmlStyle::Subscript => "sub",
            HtmlStyle::Mark => "mark",
        }
    }
}

/// Where the lines of a block of raw HTML are set.
#[derive(Debug, Clone, Copy, PartialEq, Eq, Structural)]
pub enum HtmlAlign {
    Center,
    Right,
}

/// A block raw HTML opens: its alignment, and whether it is a paragraph.
#[derive(Debug, Clone, Copy, PartialEq, Eq, Structural)]
pub struct HtmlBlock {
    pub align: Option<HtmlAlign>,
    pub paragraph: bool,
}

/// What is shown of raw HTML, over a type of text `S`: owned, or a sequence in a contract.
#[derive(Debug, PartialEq)]
pub enum HtmlPart<S> {
    /// Text, in which a line break is a `<br>`.
    Text(S),
    DetailsStart { open: bool },
    DetailsEnd,
    SummaryStart,
    SummaryEnd,
    BlockStart(HtmlBlock),
    BlockEnd { paragraph: bool },
    StyleStart(HtmlStyle),
    StyleEnd(HtmlStyle),
}

/// A part of raw HTML as contracts speak of it.
pub type PartView = HtmlPart<Seq<char>>;

impl View for HtmlPart<String> {
    type V = PartView;

    open spec fn view(&self) -> PartView {
        match *self {
            HtmlPart::Text(text) => HtmlPart::Text(text@),
            HtmlPart::DetailsStart { open } => HtmlPart::DetailsStart { open },
            HtmlPart::DetailsEnd => HtmlPart::DetailsEnd,
            HtmlPart::SummaryStart => HtmlPart::SummaryStart,
            HtmlPart::SummaryEnd => HtmlPart::SummaryEnd,
            HtmlPart::BlockStart(block) => HtmlPart::BlockStart(block),
            HtmlPart::BlockEnd { paragraph } => HtmlPart::BlockEnd { paragraph },
            HtmlPart::StyleStart(style) => HtmlPart::StyleStart(style),
            HtmlPart::StyleEnd(style) => HtmlPart::StyleEnd(style),
        }
    }
}

/// What ends a run of characters in a tag.
#[derive(Debug, Clone, Copy)]
pub enum Stop {
    /// Anything but white space and slashes.
    Content,
    /// White space, a slash or an equals sign.
    NameEnd,
    /// Anything but white space.
    Dark,
    /// White space.
    White,
    /// The character itself.
    Quote(char),
}

/// Whether a character ends a run.
pub open spec fn stops(c: char, stop: Stop) -> bool {
    match stop {
        Stop::Content => !crate::text::is_white(c) && c != '/',
        Stop::NameEnd => crate::text::is_white(c) || c == '/' || c == '=',
        Stop::Dark => !crate::text::is_white(c),
        Stop::White => crate::text::is_white(c),
        Stop::Quote(quote) => c == quote,
    }
}

/// Where the run of characters at `at` ends.
pub open spec fn run_end(tag: Seq<char>, at: int, stop: Stop) -> int
    decreases tag.len() - at,
{
    if 0 <= at < tag.len() && !stops(tag[at], stop) {
        run_end(tag, at + 1, stop)
    } else {
        at
    }
}

/// A run ends after it starts, at the end or at a character that ends it.
pub proof fn run_ends(tag: Seq<char>, at: int, stop: Stop)
    requires
        0 <= at <= tag.len(),
    ensures
        at <= run_end(tag, at, stop) <= tag.len(),
        run_end(tag, at, stop) < tag.len() ==> stops(tag[run_end(tag, at, stop)], stop),
    decreases tag.len() - at,
{
    if at < tag.len() && !stops(tag[at], stop) {
        run_ends(tag, at + 1, stop);
    }
}

/// Where the run of characters at `at` ends.
fn find_run_end(tag: &Vec<char>, at: usize, stop: Stop) -> (end: usize)
    requires
        at <= tag@.len(),
    ensures
        end == run_end(tag@, at as int, stop),
        at <= end <= tag@.len(),
        end < tag@.len() ==> stops(tag@[end as int], stop),
{
    let mut end: usize = at;
    while end < tag.len()
        invariant
            at <= end <= tag@.len(),
            run_end(tag@, at as int, stop) == run_end(tag@, end as int, stop),
        ensures
            at <= end <= tag@.len(),
            end == run_end(tag@, at as int, stop),
            end < tag@.len() ==> stops(tag@[end as int], stop),
        decreases tag@.len() - end,
    {
        let c = tag[end];
        let stopped = match stop {
            Stop::Content => !c.is_whitespace() && c != '/',
            Stop::NameEnd => c.is_whitespace() || c == '/' || c == '=',
            Stop::Dark => !c.is_whitespace(),
            Stop::White => c.is_whitespace(),
            Stop::Quote(quote) => c == quote,
        };
        if stopped {
            break;
        }
        end += 1;
    }
    end
}

/// An attribute of a tag: its name in lower case, and its value, empty where it has none.
pub type AttributeView = (Seq<char>, Seq<char>);

/// The value of an attribute that starts at `at`, after its equals sign, and where the
/// attribute ends.
pub open spec fn value_at(tag: Seq<char>, at: int) -> (Seq<char>, int) {
    let start = run_end(tag, at, Stop::Dark);
    if start < tag.len() && (tag[start] == '"' || tag[start] == '\'') {
        let end = run_end(tag, start + 1, Stop::Quote(tag[start]));
        (
            tag.subrange(start + 1, end),
            if end < tag.len() {
                end + 1
            } else {
                end
            },
        )
    } else {
        let end = run_end(tag, start, Stop::White);
        (tag.subrange(start, end), end)
    }
}

/// A value and what follows it lie in the tag.
pub proof fn value_fits(tag: Seq<char>, at: int)
    requires
        0 <= at <= tag.len(),
    ensures
        at <= value_at(tag, at).1 <= tag.len(),
{
    run_ends(tag, at, Stop::Dark);
    let start = run_end(tag, at, Stop::Dark);
    if start < tag.len() {
        run_ends(tag, start + 1, Stop::Quote(tag[start]));
    }
    run_ends(tag, start, Stop::White);
}

/// The attributes written in a tag from `at` on.
pub open spec fn attributes(tag: Seq<char>, at: int) -> Seq<AttributeView>
    decreases tag.len() - at,
{
    if at < 0 || at > tag.len() {
        Seq::empty()
    } else {
        let start = run_end(tag, at, Stop::Content);
        let end = if start < tag.len() && tag[start] == '=' {
            start + 1
        } else {
            run_end(tag, start, Stop::NameEnd)
        };
        let mark = run_end(tag, end, Stop::Dark);
        proof {
            run_ends(tag, at, Stop::Content);
            if start < tag.len() {
                if tag[start] != '=' {
                    run_ends(tag, start + 1, Stop::NameEnd);
                }
                run_ends(tag, end, Stop::Dark);
                if mark < tag.len() {
                    value_fits(tag, mark + 1);
                }
            }
        }
        if start >= tag.len() {
            Seq::empty()
        } else if mark < tag.len() && tag[mark] == '=' {
            let (value, after) = value_at(tag, mark + 1);
            seq![(lowered(tag.subrange(start, end)), value)] + attributes(tag, after)
        } else {
            seq![(lowered(tag.subrange(start, end)), Seq::<char>::empty())] + attributes(tag, end)
        }
    }
}

/// The characters of `chars` from `start` up to `end`.
pub fn copy_range(chars: &Vec<char>, start: usize, end: usize) -> (out: Vec<char>)
    requires
        start <= end <= chars@.len(),
    ensures
        out@ == chars@.subrange(start as int, end as int),
{
    let mut out: Vec<char> = Vec::new();
    for i in start..end
        invariant
            start <= end <= chars@.len(),
            out@ == chars@.subrange(start as int, i as int),
    {
        proof {
            assert(chars@.subrange(start as int, i + 1) =~= chars@.subrange(
                start as int,
                i as int,
            ).push(chars@[i as int]));
        }
        out.push(chars[i]);
    }
    out
}

/// Attributes as contracts speak of them.
pub open spec fn attribute_views(list: Seq<(Vec<char>, Vec<char>)>) -> Seq<AttributeView> {
    list.map_values(|item: (Vec<char>, Vec<char>)| (item.0@, item.1@))
}

/// The attributes written in a tag from `from` on.
pub fn read_attributes(tag: &Vec<char>, from: usize) -> (list: Vec<(Vec<char>, Vec<char>)>)
    requires
        from <= tag@.len(),
    ensures
        attribute_views(list@) == attributes(tag@, from as int),
{
    let mut list: Vec<(Vec<char>, Vec<char>)> = Vec::new();
    let mut at: usize = from;
    proof {
        assert(attribute_views(list@) + attributes(tag@, from as int) =~= attributes(
            tag@,
            from as int,
        ));
    }
    loop
        invariant
            at <= tag.len(),
            attribute_views(list@) + attributes(tag@, at as int) == attributes(tag@, from as int),
        decreases tag@.len() - at,
    {
        let start = find_run_end(tag, at, Stop::Content);
        if start == tag.len() {
            proof {
                assert(attributes(tag@, at as int) =~= Seq::<AttributeView>::empty());
                assert(attribute_views(list@) + Seq::<AttributeView>::empty()
                    =~= attribute_views(list@));
            }
            return list;
        }
        let end = if tag[start] == '=' {
            start + 1
        } else {
            proof {
                run_ends(tag@, start + 1, Stop::NameEnd);
            }
            find_run_end(tag, start, Stop::NameEnd)
        };
        let mark = find_run_end(tag, end, Stop::Dark);
        let name = lower_chars(&copy_range(tag, start, end));
        let ghost before = list@;
        if mark < tag.len() && tag[mark] == '=' {
            let (value, after) = read_value(tag, mark + 1);
            proof {
                let item = (name@, value@);
                assert(attribute_views(before.push((name, value))) =~= attribute_views(
                    before,
                ).push(item));
                assert(attribute_views(before) + (seq![item] + attributes(tag@, after as int))
                    =~= attribute_views(before).push(item) + attributes(tag@, after as int));
            }
            list.push((name, value));
            at = after;
        } else {
            let value: Vec<char> = Vec::new();
            proof {
                let item = (name@, value@);
                assert(value@ =~= Seq::<char>::empty());
                assert(attribute_views(before.push((name, value))) =~= attribute_views(
                    before,
                ).push(item));
                assert(attribute_views(before) + (seq![item] + attributes(tag@, end as int))
                    =~= attribute_views(before).push(item) + attributes(tag@, end as int));
            }
            list.push((name, value));
            at = end;
        }
    }
}

/// The value of an attribute, and where the attribute ends.
fn read_value(tag: &Vec<char>, at: usize) -> (found: (Vec<char>, usize))
    requires
        at <= tag@.len(),
    ensures
        (found.0@, found.1 as int) == value_at(tag@, at as int),
        at <= found.1 <= tag@.len(),
{
    let start = find_run_end(tag, at, Stop::Dark);
    if start < tag.len() && (tag[start] == '"' || tag[start] == '\'') {
        let end = find_run_end(tag, start + 1, Stop::Quote(tag[start]));
        let value = copy_range(tag, start + 1, end);
        if end < tag.len() {
            (value, end + 1)
        } else {
            (value, end)
        }
    } else {
        let end = find_run_end(tag, start, Stop::White);
        (copy_range(tag, start, end), end)
    }
}

/// Whether a tag has the attribute `name`.
pub open spec fn has_attribute(list: Seq<AttributeView>, name: Seq<char>) -> bool {
    exists|i: int| 0 <= i < list.len() && (#[trigger] list[i]).0 == name
}

/// Whether a tag's attribute `name` has the given value, in any case.
pub open spec fn attribute_is(
    list: Seq<AttributeView>,
    name: Seq<char>,
    value: Seq<char>,
) -> bool {
    exists|i: int|
        0 <= i < list.len() && (#[trigger] list[i]).0 == name && lowered(list[i].1) == value
}

/// Whether a tag has the attribute `name`, and with the given value if there is one.
fn find_attribute(list: &Vec<(Vec<char>, Vec<char>)>, name: &str, value: Option<&str>) -> (found:
    bool)
    ensures
        found == (match value {
            Some(value) => attribute_is(attribute_views(list@), name@, value@),
            None => has_attribute(attribute_views(list@), name@),
        }),
{
    let wanted = chars_of(name);
    for i in 0..list.len()
        invariant
            wanted@ == name@,
            forall|j: int|
                0 <= j < i ==> !((#[trigger] attribute_views(list@)[j]).0 == name@ && (
                value matches Some(value) ==> lowered(attribute_views(list@)[j].1) == value@)),
    {
        proof {
            assert(attribute_views(list@)[i as int] == (list@[i as int].0@, list@[i as int].1@));
        }
        if same_chars(&list[i].0, &wanted) {
            match value {
                Some(value) => {
                    if same_chars(&lower_chars(&list[i].1), &chars_of(value)) {
                        return true;
                    }
                },
                None => {
                    return true;
                },
            }
        }
    }
    false
}

/// The style the element called `name` gives text.
pub open spec fn style_of(name: Seq<char>) -> Option<HtmlStyle> {
    if name == "b"@ || name == "strong"@ {
        Some(HtmlStyle::Bold)
    } else if name == "i"@ || name == "em"@ {
        Some(HtmlStyle::Italic)
    } else if name == "s"@ || name == "del"@ {
        Some(HtmlStyle::Strikethrough)
    } else if name == "u"@ || name == "ins"@ {
        Some(HtmlStyle::Underline)
    } else if name == "code"@ {
        Some(HtmlStyle::Code)
    } else if name == "kbd"@ {
        Some(HtmlStyle::Keyboard)
    } else if name == "sup"@ {
        Some(HtmlStyle::Superscript)
    } else if name == "sub"@ {
        Some(HtmlStyle::Subscript)
    } else if name == "mark"@ {
        Some(HtmlStyle::Mark)
    } else {
        None
    }
}

/// The style the element called `name` gives text.
fn find_style(name: &Vec<char>) -> (style: Option<HtmlStyle>)
    ensures
        style == style_of(name@),
{
    if is_name(name, "b") || is_name(name, "strong") {
        Some(HtmlStyle::Bold)
    } else if is_name(name, "i") || is_name(name, "em") {
        Some(HtmlStyle::Italic)
    } else if is_name(name, "s") || is_name(name, "del") {
        Some(HtmlStyle::Strikethrough)
    } else if is_name(name, "u") || is_name(name, "ins") {
        Some(HtmlStyle::Underline)
    } else if is_name(name, "code") {
        Some(HtmlStyle::Code)
    } else if is_name(name, "kbd") {
        Some(HtmlStyle::Keyboard)
    } else if is_name(name, "sup") {
        Some(HtmlStyle::Superscript)
    } else if is_name(name, "sub") {
        Some(HtmlStyle::Subscript)
    } else if is_name(name, "mark") {
        Some(HtmlStyle::Mark)
    } else {
        None
    }
}

/// Whether the characters are those of `text`.
pub fn is_name(chars: &Vec<char>, text: &str) -> (equal: bool)
    ensures
        equal == (chars@ == text@),
{
    same_chars(chars, &chars_of(text))
}

/// Whether a tag, without its brackets, is an end tag.
pub open spec fn is_end_tag(tag: Seq<char>) -> bool {
    tag.len() > 0 && tag[0] == '/'
}

/// Where the name of a tag starts.
pub open spec fn name_start(tag: Seq<char>) -> int {
    if is_end_tag(tag) {
        1
    } else {
        0
    }
}

/// The name of a tag, in lower case.
pub open spec fn tag_name(tag: Seq<char>) -> Seq<char> {
    lowered(tag.subrange(name_start(tag), run_end(tag, name_start(tag), Stop::NameEnd)))
}

/// The attributes of a tag.
pub open spec fn tag_attributes(tag: Seq<char>) -> Seq<AttributeView> {
    attributes(tag, run_end(tag, name_start(tag), Stop::NameEnd))
}

/// The part of a document's HTML that a tag, without its brackets, stands for; `None` for a
/// tag that is dropped.
pub open spec fn part_of(tag: Seq<char>) -> Option<PartView> {
    let name = tag_name(tag);
    let list = tag_attributes(tag);
    let end = is_end_tag(tag);
    if name == "br"@ {
        Some(HtmlPart::Text("\n"@))
    } else if name == "details"@ {
        Some(
            if end {
                HtmlPart::DetailsEnd
            } else {
                HtmlPart::DetailsStart { open: has_attribute(list, "open"@) }
            },
        )
    } else if name == "summary"@ {
        Some(
            if end {
                HtmlPart::SummaryEnd
            } else {
                HtmlPart::SummaryStart
            },
        )
    } else if name == "p"@ || name == "div"@ || name == "center"@ {
        Some(
            if end {
                HtmlPart::BlockEnd { paragraph: name == "p"@ }
            } else {
                HtmlPart::BlockStart(
                    HtmlBlock {
                        align: if name == "center"@ || attribute_is(list, "align"@, "center"@) {
                            Some(HtmlAlign::Center)
                        } else if attribute_is(list, "align"@, "right"@) {
                            Some(HtmlAlign::Right)
                        } else {
                            None
                        },
                        paragraph: name == "p"@,
                    },
                )
            },
        )
    } else {
        match style_of(name) {
            Some(style) => Some(
                if end {
                    HtmlPart::StyleEnd(style)
                } else {
                    HtmlPart::StyleStart(style)
                },
            ),
            None => None,
        }
    }
}

/// A part that may be missing, as contracts speak of it.
pub open spec fn opt_part(part: Option<HtmlPart<String>>) -> Option<PartView> {
    match part {
        Some(part) => Some(part@),
        None => None,
    }
}

/// The name of a tag, in lower case, and where it ends.
pub fn read_name(tag: &Vec<char>) -> (found: (Vec<char>, usize))
    ensures
        found.0@ == tag_name(tag@),
        found.1 == run_end(tag@, name_start(tag@), Stop::NameEnd),
        found.1 <= tag@.len(),
{
    let start: usize = if tag.len() > 0 && tag[0] == '/' {
        1
    } else {
        0
    };
    let end = find_run_end(tag, start, Stop::NameEnd);
    (lower_chars(&copy_range(tag, start, end)), end)
}

/// The part of a document's HTML that a tag, without its brackets, stands for.
fn read_part(tag: &Vec<char>) -> (part: Option<HtmlPart<String>>)
    ensures
        opt_part(part) == part_of(tag@),
{
    let (name, after) = read_name(tag);
    let list = read_attributes(tag, after);
    let end = tag.len() > 0 && tag[0] == '/';
    if is_name(&name, "br") {
        Some(HtmlPart::Text(String::from_str("\n")))
    } else if is_name(&name, "details") {
        if end {
            Some(HtmlPart::DetailsEnd)
        } else {
            Some(HtmlPart::DetailsStart { open: find_attribute(&list, "open", None) })
        }
    } else if is_name(&name, "summary") {
        if end {
            Some(HtmlPart::SummaryEnd)
        } else {
            Some(HtmlPart::SummaryStart)
        }
    } else if is_name(&name, "p") || is_name(&name, "div") || is_name(&name, "center") {
        let paragraph = is_name(&name, "p");
        if end {
            Some(HtmlPart::BlockEnd { paragraph })
        } else {
            let align = if is_name(&name, "center") || find_attribute(
                &list,
                "align",
                Some("center"),
            ) {
                Some(HtmlAlign::Center)
            } else if find_attribute(&list, "align", Some("right")) {
                Some(HtmlAlign::Right)
            } else {
                None
            };
            Some(HtmlPart::BlockStart(HtmlBlock { align, paragraph }))
        }
    } else {
        match find_style(&name) {
            Some(style) => {
                if end {
                    Some(HtmlPart::StyleEnd(style))
                } else {
                    Some(HtmlPart::StyleStart(style))
                }
            },
            None => None,
        }
    }
}

/// `text` with each run of white space made one space.
pub open spec fn collapsed(text: Seq<char>) -> Seq<char>
    decreases text.len(),
{
    if text.len() == 0 {
        Seq::empty()
    } else {
        let before = collapsed(text.drop_last());
        if !crate::text::is_white(text.last()) {
            before.push(text.last())
        } else if before.len() > 0 && before.last() == ' ' {
            before
        } else {
            before.push(' ')
        }
    }
}

/// The characters from `start` up to `end` with each run of white space made one space.
fn collapse(chars: &Vec<char>, start: usize, end: usize) -> (out: Vec<char>)
    requires
        start <= end <= chars@.len(),
    ensures
        out@ == collapsed(chars@.subrange(start as int, end as int)),
{
    let mut out: Vec<char> = Vec::new();
    for i in start..end
        invariant
            start <= end <= chars@.len(),
            out@ == collapsed(chars@.subrange(start as int, i as int)),
    {
        proof {
            assert(chars@.subrange(start as int, i + 1).drop_last() =~= chars@.subrange(
                start as int,
                i as int,
            ));
        }
        let c = chars[i];
        if !c.is_whitespace() {
            out.push(c);
        } else if out.len() > 0 && out[out.len() - 1] == ' ' {
        } else {
            out.push(' ');
        }
    }
    out
}

/// The part a stretch of text makes, with its emoji shortcodes as emoji.
pub open spec fn text_parts(text: Seq<char>) -> Seq<PartView> {
    if text.len() == 0 {
        Seq::empty()
    } else {
        seq![HtmlPart::Text(emoji_text(collapsed(text)))]
    }
}

/// Whether the element a tag starts holds no text to show.
pub open spec fn is_hidden(tag: Seq<char>) -> bool {
    !is_end_tag(tag) && (tag_name(tag) == "script"@ || tag_name(tag) == "style"@)
}

/// Where the element called `name` ends, from `at` on, with its end tag; `None` if it does
/// not end.
pub open spec fn element_end(chunk: Seq<char>, at: int, name: Seq<char>) -> Option<int> {
    match find_at(lowered(chunk), at, "</"@ + name) {
        Some(start) => match find_at(chunk, start, ">"@) {
            Some(end) => Some(end + 1),
            None => None,
        },
        None => None,
    }
}

/// An element ends after it starts.
pub proof fn element_ends(chunk: Seq<char>, at: int, name: Seq<char>)
    requires
        0 <= at,
    ensures
        element_end(chunk, at, name) matches Some(end) ==> at < end <= chunk.len(),
{
    reveal_strlit(">");
    crate::text::found_first(lowered(chunk), at, "</"@ + name);
    if let Some(start) = find_at(lowered(chunk), at, "</"@ + name) {
        crate::text::found_first(chunk, start, ">"@);
    }
}

/// Scripts and style sheets hold nothing to show: the text of a chunk that starts with one is
/// the text after it, and there is none if it does not end; and nothing is shown of a chunk that
/// is one.
pub proof fn scripts_hold_no_text(chunk: Seq<char>, end: int)
    requires
        chunk.len() > 0,
        chunk[0] == '<',
        find_at(chunk, 0, ">"@) == Some(end),
        is_hidden(chunk.subrange(1, end)),
    ensures
        html_text(chunk) == match element_end(chunk, end + 1, tag_name(chunk.subrange(1, end))) {
            Some(after) => stripped(chunk, after),
            None => Seq::empty(),
        },
        element_end(chunk, end + 1, tag_name(chunk.subrange(1, end))) == Some(chunk.len() as int)
            ==> html_text(chunk) == Seq::<char>::empty() && parts_of(chunk) == Seq::<PartView>::empty(),
{
    let tag = chunk.subrange(1, end);
    reveal_strlit("<");
    reveal_strlit(">");
    reveal_strlit("<!--");
    reveal_strlit("script");
    reveal_strlit("style");
    crate::text::found_first(chunk, 0, "<"@);
    crate::text::found_first(chunk, 0, ">"@);
    assert(chunk.subrange(0, 1) =~= "<"@);
    assert(find_at(chunk, 0, "<"@) == Some(0int));
    assert(!stands_at(chunk, 0, "<!--"@)) by {
        if stands_at(chunk, 0, "<!--"@) {
            assert(chunk.subrange(0, 4)[1] == '!');
            assert(chunk[1] == '!');
            assert(chunk.subrange(end, end + 1)[0] == '>');
            assert(end > 1);
            assert(tag[0] == '!');
            run_ends(tag, 0, Stop::NameEnd);
            assert(tag_name(tag).len() > 0);
            assert(tag_name(tag)[0] == '!');
        }
    }
    assert(chunk.subrange(0, 0) =~= Seq::<char>::empty());
    let name = tag_name(tag);
    element_ends(chunk, end + 1, name);
    if let Some(after) = element_end(chunk, end + 1, name) {
        assert(Seq::<char>::empty() + stripped(chunk, after) =~= stripped(chunk, after));
        crate::text::found_first(chunk, after, "<"@);
        if after == chunk.len() {
            assert(chunk.skip(after) =~= Seq::<char>::empty());
            assert(raw_parts(chunk, after) =~= Seq::<PartView>::empty());
            assert(raw_parts(chunk, 0) =~= Seq::<PartView>::empty());
        }
    }
}

/// The parts of a raw HTML chunk from `at` on, with the white space between them.
pub open spec fn raw_parts(chunk: Seq<char>, at: int) -> Seq<PartView>
    decreases chunk.len() - at,
{
    if at < 0 || at > chunk.len() {
        Seq::empty()
    } else {
        proof {
            crate::text::found_first(chunk, at, "<"@);
            reveal_strlit("<");
        }
        match find_at(chunk, at, "<"@) {
            None => text_parts(chunk.skip(at)),
            Some(start) => {
                let text = text_parts(chunk.subrange(at, start));
                proof {
                    crate::text::found_first(chunk, start, "-->"@);
                    crate::text::found_first(chunk, start, ">"@);
                    reveal_strlit("-->");
                    reveal_strlit(">");
                }
                if stands_at(chunk, start, "<!--"@) {
                    match find_at(chunk, start, "-->"@) {
                        Some(end) => text + raw_parts(chunk, end + 3),
                        None => text,
                    }
                } else {
                    match find_at(chunk, start, ">"@) {
                        None => text_parts(chunk.skip(at)),
                        Some(end) => {
                            let tag = chunk.subrange(start + 1, end);
                            proof {
                                element_ends(chunk, end + 1, tag_name(tag));
                            }
                            if is_hidden(tag) {
                                match element_end(chunk, end + 1, tag_name(tag)) {
                                    Some(after) => text + raw_parts(chunk, after),
                                    None => text,
                                }
                            } else {
                                text + (match part_of(tag) {
                                    Some(part) => seq![part],
                                    None => Seq::empty(),
                                }) + raw_parts(chunk, end + 1)
                            }
                        },
                    }
                }
            },
        }
    }
}

/// Whether a part starts a line or ends one, so that white space beside it does not show.
pub open spec fn is_edge(part: PartView) -> bool {
    match part {
        HtmlPart::Text(text) => text == "\n"@,
        HtmlPart::StyleStart(_) => false,
        HtmlPart::StyleEnd(_) => false,
        _ => true,
    }
}

/// The text of a part without the spaces that do not show: those at the start and at the
/// end of a line.
pub open spec fn shown_text(parts: Seq<PartView>, i: int, text: Seq<char>) -> Seq<char> {
    let text = if i == 0 || is_edge(parts[i - 1]) {
        drop_start(text, ' ')
    } else {
        text
    };
    if i + 1 >= parts.len() || is_edge(parts[i + 1]) {
        drop_end(text, ' ')
    } else {
        text
    }
}

/// The first `n` parts without the spaces that do not show.
pub open spec fn tidied(parts: Seq<PartView>, n: int) -> Seq<PartView>
    decreases n,
{
    if n <= 0 {
        Seq::empty()
    } else {
        let before = tidied(parts, n - 1);
        match parts[n - 1] {
            HtmlPart::Text(text) => {
                let text = shown_text(parts, n - 1, text);
                if text.len() == 0 {
                    before
                } else {
                    before.push(HtmlPart::Text(text))
                }
            },
            other => before.push(other),
        }
    }
}

/// The parts of a raw HTML chunk.
pub open spec fn parts_of(chunk: Seq<char>) -> Seq<PartView> {
    let raw = raw_parts(chunk, 0);
    tidied(raw, raw.len() as int)
}

/// Parts as contracts speak of them.
pub open spec fn part_views(parts: Seq<HtmlPart<String>>) -> Seq<PartView> {
    parts.map_values(|part: HtmlPart<String>| part@)
}

/// Add the part a stretch of text makes.
fn push_text_part(parts: &mut Vec<HtmlPart<String>>, chars: &Vec<char>, start: usize, end: usize)
    requires
        start <= end <= chars@.len(),
    ensures
        part_views(final(parts)@) == part_views(old(parts)@) + text_parts(
            chars@.subrange(start as int, end as int),
        ),
{
    let ghost before = parts@;
    if start < end {
        let text = collapse(chars, start, end);
        let mut owned = String::new();
        push_range(&mut owned, &text, 0, text.len());
        let part = HtmlPart::Text(with_emoji(owned.as_str()));
        proof {
            assert(Seq::<char>::empty() + text@.subrange(0, text@.len() as int) =~= text@);
            assert(part_views(before.push(part)) =~= part_views(before) + seq![part@]);
        }
        parts.push(part);
    } else {
        proof {
            assert(part_views(before) + Seq::<PartView>::empty() =~= part_views(before));
        }
    }
}

/// Where the element called `name` ends, from `at` on, with its end tag.
pub fn find_element_end(chunk: &Vec<char>, at: usize, name: &Vec<char>) -> (found: Option<usize>)
    requires
        at <= chunk@.len(),
    ensures
        match found {
            Some(end) => element_end(chunk@, at as int, name@) == Some(end as int),
            None => element_end(chunk@, at as int, name@) is None,
        },
{
    let lower = lower_chars(chunk);
    let mut wanted = chars_of("</");
    let ghost opening = wanted@;
    for i in 0..name.len()
        invariant
            wanted@ == opening + name@.take(i as int),
    {
        proof {
            assert(opening + name@.take(i + 1) =~= (opening + name@.take(i as int)).push(
                name@[i as int],
            ));
        }
        wanted.push(name[i]);
    }
    proof {
        assert(name@.take(name@.len() as int) =~= name@);
        reveal_strlit(">");
    }
    match find(&lower, at, &wanted) {
        Some(start) => match find(chunk, start, &chars_of(">")) {
            Some(end) => {
                proof {
                    assert(end + 1 <= chunk.len());
                }
                Some(end + 1)
            },
            None => None,
        },
        None => None,
    }
}

/// The parts of a raw HTML chunk, with the white space between them.
fn read_raw_parts(chars: &Vec<char>) -> (parts: Vec<HtmlPart<String>>)
    ensures
        part_views(parts@) == raw_parts(chars@, 0),
{
    let less = chars_of("<");
    let greater = chars_of(">");
    let comment = chars_of("<!--");
    let comment_end = chars_of("-->");
    let mut parts: Vec<HtmlPart<String>> = Vec::new();
    let mut at: usize = 0;
    proof {
        reveal_strlit("<");
        reveal_strlit(">");
        reveal_strlit("-->");
        assert(part_views(parts@) + raw_parts(chars@, 0) =~= raw_parts(chars@, 0));
    }
    loop
        invariant
            at <= chars.len(),
            less@ == "<"@,
            greater@ == ">"@,
            comment@ == "<!--"@,
            comment_end@ == "-->"@,
            comment_end@.len() == 3,
            greater@.len() == 1,
            less@.len() == 1,
            less@[0] == '<',
            greater@[0] == '>',
            part_views(parts@) + raw_parts(chars@, at as int) == raw_parts(chars@, 0),
        decreases chars@.len() - at,
    {
        let ghost before = part_views(parts@);
        let ghost rest = chars@.subrange(at as int, chars@.len() as int);
        proof {
            assert(rest =~= chars@.skip(at as int));
        }
        let start = match find(chars, at, &less) {
            Some(start) => start,
            None => {
                push_text_part(&mut parts, chars, at, chars.len());
                return parts;
            },
        };
        let ghost text = text_parts(chars@.subrange(at as int, start as int));
        if has_at(chars, start, &comment) {
            push_text_part(&mut parts, chars, at, start);
            match find(chars, start, &comment_end) {
                Some(end) => {
                    proof {
                        assert(before + (text + raw_parts(chars@, end + 3)) =~= before + text
                            + raw_parts(chars@, end + 3));
                    }
                    at = end + 3;
                },
                None => {
                    return parts;
                },
            }
        } else {
            match find(chars, start, &greater) {
                None => {
                    push_text_part(&mut parts, chars, at, chars.len());
                    return parts;
                },
                Some(end) => {
                    push_text_part(&mut parts, chars, at, start);
                    proof {
                        assert(start != end) by {
                            assert(chars@.subrange(start as int, start + less@.len())[0] == '<');
                            assert(chars@.subrange(end as int, end + greater@.len())[0] == '>');
                        }
                    }
                    let tag = copy_range(chars, start + 1, end);
                    let (name, _) = read_name(&tag);
                    let is_end = tag.len() > 0 && tag[0] == '/';
                    if !is_end && (is_name(&name, "script") || is_name(&name, "style")) {
                        proof {
                            element_ends(chars@, end + 1, name@);
                        }
                        match find_element_end(chars, end + 1, &name) {
                            Some(after) => {
                                proof {
                                    assert(before + (text + raw_parts(chars@, after as int))
                                        =~= before + text + raw_parts(chars@, after as int));
                                }
                                at = after;
                            },
                            None => {
                                return parts;
                            },
                        }
                    } else {
                        let ghost middle = match part_of(tag@) {
                            Some(part) => seq![part],
                            None => Seq::empty(),
                        };
                        let ghost listed = parts@;
                        match read_part(&tag) {
                            Some(part) => {
                                proof {
                                    assert(part_views(listed.push(part)) =~= part_views(listed)
                                        + seq![part@]);
                                }
                                parts.push(part);
                            },
                            None => {
                                proof {
                                    assert(part_views(listed) + Seq::<PartView>::empty()
                                        =~= part_views(listed));
                                }
                            },
                        }
                        proof {
                            assert(before + (text + middle + raw_parts(chars@, end + 1)) =~= before
                                + text + middle + raw_parts(chars@, end + 1));
                        }
                        at = end + 1;
                    }
                },
            }
        }
    }
}

/// Whether a part starts a line or ends one.
fn part_is_edge(part: &HtmlPart<String>) -> (edge: bool)
    ensures
        edge == is_edge(part@),
{
    match part {
        HtmlPart::Text(text) => crate::text::same(text.as_str(), "\n"),
        HtmlPart::StyleStart(_) => false,
        HtmlPart::StyleEnd(_) => false,
        _ => true,
    }
}

/// A copy of a part that holds no text.
fn copy_part(part: &HtmlPart<String>) -> (copy: HtmlPart<String>)
    ensures
        copy@ == part@,
{
    match part {
        HtmlPart::Text(text) => HtmlPart::Text(text.clone()),
        HtmlPart::DetailsStart { open } => HtmlPart::DetailsStart { open: *open },
        HtmlPart::DetailsEnd => HtmlPart::DetailsEnd,
        HtmlPart::SummaryStart => HtmlPart::SummaryStart,
        HtmlPart::SummaryEnd => HtmlPart::SummaryEnd,
        HtmlPart::BlockStart(block) => HtmlPart::BlockStart(*block),
        HtmlPart::BlockEnd { paragraph } => HtmlPart::BlockEnd { paragraph: *paragraph },
        HtmlPart::StyleStart(style) => HtmlPart::StyleStart(*style),
        HtmlPart::StyleEnd(style) => HtmlPart::StyleEnd(*style),
    }
}

/// What is shown of a raw HTML chunk: its text without scripts and style sheets, with white
/// space as HTML shows it, and the tags of text styles, blocks and `<details>` elements.
pub fn html_parts(chunk: &str) -> (parts: Vec<HtmlPart<String>>)
    ensures
        part_views(parts@) == parts_of(chunk@),
{
    let raw = read_raw_parts(&chars_of(chunk));
    let mut parts: Vec<HtmlPart<String>> = Vec::new();
    proof {
        assert(part_views(parts@) =~= Seq::<PartView>::empty());
    }
    for i in 0..raw.len()
        invariant
            part_views(parts@) == tidied(part_views(raw@), i as int),
    {
        let ghost before = parts@;
        proof {
            assert(part_views(raw@)[i as int] == raw@[i as int]@);
        }
        match &raw[i] {
            HtmlPart::Text(text) => {
                let mut shown = chars_of(text.as_str());
                let first = i == 0 || part_is_edge(&raw[i - 1]);
                let last = i + 1 == raw.len() || part_is_edge(&raw[i + 1]);
                if first {
                    shown = skip_spaces(&shown);
                }
                if last {
                    crate::text::cut_end(&mut shown, ' ');
                }
                if shown.len() > 0 {
                    let mut owned = String::new();
                    push_range(&mut owned, &shown, 0, shown.len());
                    let part = HtmlPart::Text(owned);
                    proof {
                        assert(Seq::<char>::empty() + shown@.subrange(0, shown@.len() as int)
                            =~= shown@);
                        assert(part_views(before.push(part)) =~= part_views(before).push(part@));
                    }
                    parts.push(part);
                }
            },
            other => {
                let part = copy_part(other);
                proof {
                    assert(part_views(before.push(part)) =~= part_views(before).push(part@));
                }
                parts.push(part);
            },
        }
    }
    parts
}

/// The characters without the spaces at their start.
fn skip_spaces(chars: &Vec<char>) -> (out: Vec<char>)
    ensures
        out@ == drop_start(chars@, ' '),
{
    let mut at: usize = 0;
    proof {
        assert(chars@.skip(0) =~= chars@);
    }
    while at < chars.len() && chars[at] == ' '
        invariant
            at <= chars@.len(),
            drop_start(chars@, ' ') == drop_start(chars@.skip(at as int), ' '),
        decreases chars@.len() - at,
    {
        proof {
            assert(chars@.skip(at as int).drop_first() =~= chars@.skip(at + 1));
        }
        at += 1;
    }
    proof {
        assert(chars@.subrange(at as int, chars@.len() as int) =~= chars@.skip(at as int));
    }
    copy_range(chars, at, chars.len())
}

}
