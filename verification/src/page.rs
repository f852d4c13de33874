//! The page of an exported document.

use crate::event::{copy_event, DocEvent, EventView, MdEvent, MdTag};
use crate::export::{css_string, css_text, escape_html, escaped, CodeRun};
use crate::github::{as_github_does, read_github, show_source_math, with_source_math};
use crate::parse::{events, parsed, pushed_html, writable, GITHUB};
use crate::rewrite::{export_events, page_events};
use crate::text::{chars_of, cut_end, drop_end, text_of};
use pulldown_cmark::TagEnd;
use std::ops::Range;
use std::path::PathBuf;
use vstd::prelude::*;
use vstd::string::*;

verus! {

/// What an export takes besides the Markdown text.
pub struct Options {
    pub title: String,
    /// The document's folder, which images are taken from; `None` for an untitled document.
    pub base_dir: Option<PathBuf>,
    pub text_font: String,
    pub monospace_font: String,
    /// The width of the reading column, in pixels.
    pub width: i32,
    /// The syntax colours of the code blocks in the light style.
    pub light: Vec<Vec<CodeRun>>,
    /// The same in the dark style.
    pub dark: Vec<Vec<CodeRun>>,
}

/// The stylesheet up to the font of the text.
pub const CSS_BEFORE_TEXT_FONT: &'static str = r#"
:root { color-scheme: light dark; }
* { box-sizing: border-box; }
body { margin: 0; padding: 32px 16px; background: #ffffff; color: rgba(0, 0, 6, 0.8); font-family: "#;

/// The stylesheet from the font of the text up to the width of the column.
pub const CSS_BEFORE_WIDTH: &'static str = r#", sans-serif; line-height: 1.6; overflow-wrap: break-word; }
main { max-width: "#;

/// The stylesheet from the width of the column up to the font of the code.
pub const CSS_BEFORE_MONOSPACE_FONT: &'static str = r#"px; margin: 0 auto; padding: 0 16px; }
a { color: #1c71d8; }
h1 { font-size: 2em; }
h2 { font-size: 1.75em; }
h3 { font-size: 1.5em; }
h4, h5, h6 { font-size: 1.2em; }
h1, h2, h3, h4, h5, h6 { line-height: 1.25; }
code, pre { font-family: "#;

/// The stylesheet after the font of the code.
pub const CSS_END: &'static str = r#", monospace; }
code { font-size: 0.9em; padding: 0.1em 0.3em; border-radius: 4px; background: rgba(128, 128, 128, 0.15); }
pre { padding: 12px; border: 1px solid rgba(128, 128, 128, 0.25); border-radius: 12px; overflow-x: auto; line-height: 1.4; }
pre code { padding: 0; background: none; }
pre span { color: var(--light); }
blockquote { margin: 1em 0; padding: 0.25em 1em; border-left: 3px solid rgba(128, 128, 128, 0.3); background: rgba(128, 128, 128, 0.04); color: rgba(0, 0, 0, 0.6); font-style: italic; }
.table { margin: 1em 0; overflow-x: auto; border: 1px solid rgba(128, 128, 128, 0.25); border-radius: 12px; }
table { min-width: 100%; border-collapse: collapse; }
th, td { padding: 10px 12px; border-top: 1px solid rgba(128, 128, 128, 0.25); border-left: 1px solid rgba(128, 128, 128, 0.25); text-align: left; vertical-align: top; }
thead th { border-top: none; background: rgba(128, 128, 128, 0.08); }
th:first-child, td:first-child { border-left: none; }
img { display: block; max-width: 100%; height: auto; margin: 12px auto; }
.align-center { text-align: center; }
.align-right { text-align: right; }
.align-right img { margin-right: 0; }
hr { margin: 1.5em 0; border: none; border-top: 1px solid rgba(128, 128, 128, 0.3); }
li > input[type="checkbox"], li > p > input[type="checkbox"] { margin: 0 0.4em 0 0; }
ul > li:has(> input[type="checkbox"]), ul > li:has(> p > input[type="checkbox"]) { list-style: none; }
dt { font-weight: bold; }
dd { margin: 0 0 0.5em 20px; }
.markdown-alert-note > p:first-child { color: #0461be; }
.markdown-alert-tip > p:first-child { color: #15772e; }
.markdown-alert-important > p:first-child { color: #8939a4; }
.markdown-alert-warning > p:first-child { color: #905300; }
.markdown-alert-caution > p:first-child { color: #c00023; }
.footnote-definition { margin: 0.5em 0; }
.footnote-definition p { display: inline; }
svg.math { overflow: visible; }
.math-display { display: block; margin: 0.5em 0; text-align: center; }
.footnote-backref { margin-left: 0.25em; text-decoration: none; }
@media (prefers-color-scheme: dark) {
  body { background: #1d1d20; color: #ffffff; }
  a { color: #78aeed; }
  pre span { color: var(--dark); }
  blockquote { color: rgba(255, 255, 255, 0.7); }
  .markdown-alert-note > p:first-child { color: #81d0ff; }
  .markdown-alert-tip > p:first-child { color: #8de698; }
  .markdown-alert-important > p:first-child { color: #fba7ff; }
  .markdown-alert-warning > p:first-child { color: #ffc057; }
  .markdown-alert-caution > p:first-child { color: #ff888c; }
}
@media print {
  body { padding: 0; }
  main { max-width: none; }
  pre, .table { overflow: visible; }
  pre { white-space: pre-wrap; }
}"#;

/// The stylesheet of a page.
pub open spec fn stylesheet(
    text_font: Seq<char>,
    monospace_font: Seq<char>,
    width: i32,
) -> Seq<char> {
    CSS_BEFORE_TEXT_FONT@ + css_text(text_font) + CSS_BEFORE_WIDTH@ + crate::text::decimal_signed(
        width as int,
    ) + CSS_BEFORE_MONOSPACE_FONT@ + css_text(monospace_font) + CSS_END@
}

/// A page with the given title, stylesheet and body.
pub open spec fn page(title: Seq<char>, css: Seq<char>, body: Seq<char>) -> Seq<char> {
    "<!DOCTYPE html>\n<html>\n<head>\n<meta charset=\"utf-8\">\n<meta name=\"viewport\" content=\"width=device-width, initial-scale=1\">\n<title>"@
        + escaped(title) + "</title>\n<style>"@ + css
        + "\n</style>\n</head>\n<body>\n<main>\n"@ + body + "</main>\n</body>\n</html>\n"@
}

/// Events with raw HTML that comes in pieces put together.
pub open spec fn joined_html(events: Seq<EventView>) -> Seq<EventView>
    decreases events.len(),
{
    if events.len() == 0 {
        events
    } else {
        let before = joined_html(events.drop_last());
        if before.len() > 0 && before.last() is Html && events.last() is Html {
            before.drop_last().push(
                MdEvent::Html(before.last()->Html_0 + events.last()->Html_0),
            )
        } else {
            before.push(events.last())
        }
    }
}

/// The events of a parsed document, without where they come from.
pub open spec fn bare(events: Seq<(EventView, Range<usize>)>) -> Seq<EventView> {
    events.map_values(|item: (EventView, Range<usize>)| item.0)
}

/// The events of a document as the exports read them.
pub open spec fn document(text: Seq<char>) -> Seq<EventView> {
    as_github_does(bare(parsed(text, GITHUB)), Seq::empty())
}

/// Put raw HTML that comes in pieces together.
pub fn join_html(events: &Vec<DocEvent>) -> (joined: Vec<DocEvent>)
    ensures
        crate::event::views(joined@) == joined_html(crate::event::views(events@)),
{
    let mut joined: Vec<DocEvent> = Vec::new();
    let ghost all = crate::event::views(events@);
    proof {
        assert(crate::event::views(joined@) =~= joined_html(all.take(0)));
    }
    for i in 0..events.len()
        invariant
            all == crate::event::views(events@),
            crate::event::views(joined@) == joined_html(all.take(i as int)),
    {
        let ghost before = joined@;
        let event = &events[i];
        proof {
            assert(all.take(i + 1).drop_last() =~= all.take(i as int));
            assert(all.take(i + 1).last() == event@);
            if before.len() > 0 {
                assert(crate::event::views(before).last() == before.last()@);
                assert(crate::event::views(before.drop_last()) =~= crate::event::views(
                    before,
                ).drop_last());
            }
        }
        let mut merged: Option<DocEvent> = None;
        if joined.len() > 0 {
            if let MdEvent::Html(piece) = event {
                if let MdEvent::Html(start) = &joined[joined.len() - 1] {
                    let mut whole = start.clone();
                    whole.append(piece.as_str());
                    merged = Some(MdEvent::Html(whole));
                }
            }
        }
        match merged {
            Some(whole) => {
                let _ = joined.pop();
                proof {
                    assert(crate::event::views(joined@.push(whole)) =~= crate::event::views(
                        joined@,
                    ).push(whole@));
                }
                joined.push(whole);
            },
            None => {
                let copy = copy_event(event);
                proof {
                    assert(crate::event::views(before.push(copy)) =~= crate::event::views(
                        before,
                    ).push(copy@));
                }
                joined.push(copy);
            },
        }
    }
    proof {
        assert(all.take(all.len() as int) =~= all);
    }
    joined
}

/// The events of a document.
pub fn plain_events(text: &str, extensions: u32) -> (list: Vec<DocEvent>)
    ensures
        crate::event::views(list@) == bare(crate::parse::parsed(text@, extensions)),
{
    let read = events(text, extensions);
    let mut list: Vec<DocEvent> = Vec::new();
    for i in 0..read.len()
        invariant
            crate::event::views(list@) == bare(crate::parse::located(read@.take(i as int))),
    {
        let copy = copy_event(&read[i].0);
        proof {
            assert(crate::event::views(list@.push(copy)) =~= crate::event::views(list@).push(
                copy@,
            ));
            assert(bare(crate::parse::located(read@.take(i + 1))) =~= bare(
                crate::parse::located(read@.take(i as int)),
            ).push(read@[i as int].0@));
        }
        list.push(copy);
    }
    proof {
        assert(read@.take(read@.len() as int) =~= read@);
    }
    list
}

/// The events of a document as the exports read them.
pub fn document_events(text: &str) -> (list: Vec<DocEvent>)
    ensures
        crate::event::views(list@) == document(text@),
{
    let missing: Vec<(String, String)> = Vec::new();
    proof {
        assert(crate::emoji::pairs(missing@) =~= Seq::empty());
    }
    read_github(&plain_events(text, GITHUB), &missing)
}

/// The code blocks that end among the first `n` events, by what their fences say and their code
/// without the line breaks at its end, and the one that is open after them.
pub open spec fn code_in(events: Seq<EventView>, n: int) -> (
    Seq<(Seq<char>, Seq<char>)>,
    Option<(Seq<char>, Seq<char>)>,
)
    decreases n,
{
    if n <= 0 {
        (Seq::empty(), None)
    } else {
        let (before, open) = code_in(events, n - 1);
        match (events[n - 1], open) {
            (MdEvent::Start(MdTag::CodeBlock(info)), _) => (
                before,
                Some(
                    (
                        match info {
                            Some(info) => info,
                            None => Seq::empty(),
                        },
                        Seq::empty(),
                    ),
                ),
            ),
            (MdEvent::Text(text), Some((info, code))) => (before, Some((info, code + text))),
            (MdEvent::End(TagEnd::CodeBlock), Some((info, code))) => (
                before.push((info, drop_end(code, '\n'))),
                None,
            ),
            _ => (before, open),
        }
    }
}

/// Code blocks as contracts speak of them.
pub open spec fn code_views(blocks: Seq<(String, String)>) -> Seq<(Seq<char>, Seq<char>)> {
    blocks.map_values(|block: (String, String)| (block.0@, block.1@))
}

/// The code blocks of a document, in the order they come in: what their fences say, and their
/// code as the preview and the exports show it.
pub fn code_blocks(text: &str) -> (blocks: Vec<(String, String)>)
    ensures
        code_views(blocks@) == code_in(document(text@), document(text@).len() as int).0,
{
    let events = document_events(text);
    let ghost all = crate::event::views(events@);
    let mut blocks: Vec<(String, String)> = Vec::new();
    let mut open: Option<(String, String)> = None;
    proof {
        assert(code_views(blocks@) =~= Seq::empty());
    }
    for i in 0..events.len()
        invariant
            all == crate::event::views(events@),
            code_views(blocks@) == code_in(all, i as int).0,
            (match open {
                Some((info, code)) => Some((info@, code@)),
                None => None,
            }) == code_in(all, i as int).1,
    {
        proof {
            assert(all[i as int] == events@[i as int]@);
        }
        match &events[i] {
            MdEvent::Start(MdTag::CodeBlock(info)) => {
                let info = match info {
                    Some(info) => info.clone(),
                    None => String::new(),
                };
                open = Some((info, String::new()));
            },
            MdEvent::Text(text) => {
                if let Some((info, code)) = open {
                    let mut code = code;
                    code.append(text.as_str());
                    open = Some((info, code));
                }
            },
            MdEvent::End(TagEnd::CodeBlock) => {
                if let Some((info, code)) = open {
                    let mut chars = chars_of(code.as_str());
                    cut_end(&mut chars, '\n');
                    let block = (info, text_of(&chars, 0, chars.len()));
                    proof {
                        assert(block.1@ =~= drop_end(code@, '\n'));
                        assert(code_views(blocks@.push(block)) =~= code_views(blocks@).push(
                            (info@, block.1@),
                        ));
                    }
                    blocks.push(block);
                }
                open = None;
            },
            _ => {},
        }
    }
    blocks
}

/// A standalone HTML page of the document: images from its folder embedded, code coloured as
/// in the preview, and a stylesheet of its own for the light and the dark appearance.
/// `sources` holds what the images and the math among [`document_events`] are shown as.
pub fn render_html(text: &str, options: &Options, sources: &Vec<Option<String>>) -> (html: String)
    ensures
        html@ == page(
            options.title@,
            stylesheet(options.text_font@, options.monospace_font@, options.width),
            pushed_html(
                page_events(
                    with_source_math(document(text@), sources@),
                    sources@,
                    options.light@,
                    options.dark@,
                ).map_values(|event: EventView| writable(event)),
            ),
        ),
{
    let list = show_source_math(&document_events(text), sources);
    let body = crate::parse::html(export_events(&list, sources, &options.light, &options.dark));
    page_html(options, body.as_str())
}

/// The page with the given body.
pub fn page_html(options: &Options, body: &str) -> (html: String)
    ensures
        html@ == page(
            options.title@,
            stylesheet(options.text_font@, options.monospace_font@, options.width),
            body@,
        ),
{
    let mut html = String::from_str(
        "<!DOCTYPE html>\n<html>\n<head>\n<meta charset=\"utf-8\">\n<meta name=\"viewport\" content=\"width=device-width, initial-scale=1\">\n<title>",
    );
    html.append(escape_html(options.title.as_str()).as_str());
    html.append("</title>\n<style>");
    let ghost opening = html@;
    html.append(CSS_BEFORE_TEXT_FONT);
    html.append(css_string(options.text_font.as_str()).as_str());
    html.append(CSS_BEFORE_WIDTH);
    crate::text::push_signed(&mut html, options.width);
    html.append(CSS_BEFORE_MONOSPACE_FONT);
    html.append(css_string(options.monospace_font.as_str()).as_str());
    html.append(CSS_END);
    proof {
        assert(html@ =~= opening + stylesheet(
            options.text_font@,
            options.monospace_font@,
            options.width,
        ));
    }
    html.append("\n</style>\n</head>\n<body>\n<main>\n");
    html.append(body);
    html.append("</main>\n</body>\n</html>\n");
    html
}

/// The code of a block is kept until it ends.
proof fn code_is_kept(events: Seq<EventView>, a: int, b: int, info: Option<Seq<char>>)
    requires
        0 <= a < b <= events.len(),
        events[a] == EventView::Start(MdTag::CodeBlock(info)),
        forall|k: int| a < k < b ==> (#[trigger] events[k]) is Text,
    ensures
        code_in(events, b) == (
            code_in(events, a).0,
            Some(
                (
                    match info {
                        Some(info) => info,
                        None => Seq::empty(),
                    },
                    crate::around::said(events, a + 1, b),
                ),
            ),
        ),
    decreases b - a,
{
    if b > a + 1 {
        code_is_kept(events, a, b - 1, info);
        assert(events[b - 1] is Text);
    }
}

/// The code blocks of a document are listed in order, each with what its fence says and its text
/// without the line breaks at its end.
pub proof fn code_blocks_are_listed(events: Seq<EventView>, a: int, b: int, info: Option<Seq<char>>)
    requires
        0 <= a < b < events.len(),
        events[a] == EventView::Start(MdTag::CodeBlock(info)),
        events[b] == EventView::End(TagEnd::CodeBlock),
        forall|k: int| a < k < b ==> (#[trigger] events[k]) is Text,
    ensures
        code_in(events, b + 1) == (
            code_in(events, a).0.push(
                (
                    match info {
                        Some(info) => info,
                        None => Seq::empty(),
                    },
                    drop_end(crate::around::said(events, a + 1, b), '\n'),
                ),
            ),
            None::<(Seq<char>, Seq<char>)>,
        ),
{
    code_is_kept(events, a, b, info);
}

}
