use blink::blocks::{definitions, top_level_blocks, unchanged_ends};
use blink::event::{DocEvent, MdEvent, MdTag};
use blink::folds::{fold_at, folds, hidden, Fold, Folds};
use blink::groups::group_blocks;
use blink::html::HtmlAlign;
use blink::images::{is_contained, local_image_path, shows_image, ImageReference};
use blink::languages::lang_candidates;
use blink::links::{find_heading, link_target, tick, tick_box, LinkTarget};
use blink::page::code_blocks;
use blink::parse::{self, FOOTNOTES, TABLES};
use blink::preview::{
    block_indent, close_tag, is_safe_link, list_marker, Alert, CellPart, Mark, Place,
    Resolved, TextTag, Widget,
};
use blink::render::{
    read_document, render_markdown, Document, QuoteBox, Rendered, RenderedBlock, Rendering,
};
use blink::settings::{link_at, link_holding_at};
use blink::table::{
    cell_markup, cell_runs, cell_texts, cell_width, table_grid, CellAlign, CellRun, GridItem,
};
use pulldown_cmark::Alignment;
use std::ops::Range;
use std::path::PathBuf;

fn offset_events(text: &str) -> Vec<(DocEvent, Range<usize>)> {
    parse::events(text, TABLES | FOOTNOTES)
}

#[test]
fn top_level_blocks_cover_whole_blocks() {
    let text = "# Title\n\nOne\ntwo\n\n- a\n  - b\n\n---\n\n```\ncode\n```\n";
    let events = offset_events(text);
    let sources: Vec<&str> = top_level_blocks(&events)
        .into_iter()
        .map(|(_, source)| text[source].trim_end())
        .collect();
    assert_eq!(
        sources,
        vec!["# Title", "One\ntwo", "- a\n  - b", "---", "```\ncode\n```"]
    );
}

#[test]
fn top_level_blocks_partition_the_events() {
    let text = "Para\n\n> quote\n>\n> more\n\n| a |\n|---|\n| 1 |\n";
    let events = offset_events(text);
    let blocks = top_level_blocks(&events);
    assert_eq!(blocks.first().map(|(events, _)| events.start), Some(0));
    for pair in blocks.windows(2) {
        assert_eq!(pair[0].0.end, pair[1].0.start);
    }
    assert_eq!(
        blocks.last().map(|(events, _)| events.end),
        Some(events.len())
    );
}

#[test]
fn unchanged_ends_do_not_overlap() {
    assert_eq!(unchanged_ends(&["a", "b", "c"], &["a", "x", "c"]), (1, 1));
    assert_eq!(unchanged_ends(&["a", "b"], &["a", "b"]), (2, 0));
    // A repeated block counts once, at the start or at the end.
    assert_eq!(unchanged_ends(&["a", "a"], &["a", "a", "a"]), (2, 0));
    assert_eq!(unchanged_ends(&["a", "b", "c"], &["a", "c"]), (1, 1));
    assert_eq!(unchanged_ends(&[], &["a"]), (0, 0));
}

#[test]
fn definitions_track_links_and_footnotes() {
    let events = |text| {
        let events = parse::events(text, FOOTNOTES);
        definitions(&parse::definitions(text, FOOTNOTES), &events)
    };
    assert_eq!(
        events("[a]: https://example.invalid\n\n[^n]: note\n"),
        vec!["[^n]", "[a]: https://example.invalid "]
    );
    assert_ne!(
        events("[a]: https://example.invalid/1\n"),
        events("[a]: https://example.invalid/2\n")
    );
    assert_eq!(
        events("[b]: /b 'T'\n[a]: /a\n"),
        events("[a]: /a\n[b]: /b 'T'\n")
    );
}

#[test]
fn list_marker_orders_and_alternates_bullets() {
    let mut ordered = vec![Some(1)];
    assert_eq!(list_marker(&mut ordered), "1. ");
    assert_eq!(list_marker(&mut ordered), "2. ");
    assert_eq!(ordered, vec![Some(3)]);

    // Odd nesting depth -> filled bullet, even -> hollow.
    assert_eq!(list_marker(&mut vec![None]), "• ");
    assert_eq!(list_marker(&mut vec![None, None]), "◦ ");
}

#[test]
fn rejects_remote_images() {
    assert!(local_image_path("https://example.invalid/image.png", None).is_none());
    assert!(local_image_path("data:image/png;base64,AAAA", None).is_none());
}

#[test]
fn images_are_looked_for_in_the_documents_folder() {
    let base = PathBuf::from("/home/me/doc");
    assert_eq!(
        local_image_path(" images/photo.png ", Some(&base)),
        Some(ImageReference::File(PathBuf::from(
            "/home/me/doc/images/photo.png"
        )))
    );
    assert_eq!(
        local_image_path("/etc/hostname", Some(&base)),
        Some(ImageReference::File(PathBuf::from("/etc/hostname")))
    );
    assert_eq!(
        local_image_path("file:///a.png", Some(&base)),
        Some(ImageReference::Uri(String::from("file:///a.png")))
    );
    assert_eq!(local_image_path("https://x/a.png", Some(&base)), None);
    assert_eq!(local_image_path("", Some(&base)), None);
    assert_eq!(local_image_path("data:x", Some(&base)), None);
    assert_eq!(local_image_path("photo.png", None), None);
}

#[test]
fn images_outside_the_folder_are_not_shown() {
    let base = PathBuf::from("/home/me/doc");
    assert!(is_contained(&PathBuf::from("/home/me/doc/a.png"), &base, true));
    assert!(!is_contained(&PathBuf::from("/home/me/secret.png"), &base, true));
    assert!(!is_contained(&PathBuf::from("/home/me/document/a.png"), &base, true));
    assert!(is_contained(&base, &base, true));
    assert!(is_contained(&base, &PathBuf::from("/"), true));
    assert!(!is_contained(&PathBuf::from("/home/me/doc/folder"), &base, false));
    assert!(!shows_image(false, true));
}

#[test]
fn close_tag_closes_only_the_innermost() {
    let mut tags = vec![TextTag::Bold, TextTag::Italic, TextTag::Bold];
    close_tag(&mut tags, TextTag::Bold);
    assert_eq!(tags, vec![TextTag::Bold, TextTag::Italic]);
    close_tag(&mut tags, TextTag::Link);
    assert_eq!(tags, vec![TextTag::Bold, TextTag::Italic]);
}

#[test]
fn tags_are_named() {
    assert_eq!(TextTag::Heading(3).name(), "h3");
    assert_eq!(TextTag::Quote(12).name(), "blockquote-12");
    assert_eq!(TextTag::List(0).name(), "list-0");
    assert_eq!(TextTag::ImageAlt.name(), "image-alt");
}

#[test]
fn only_web_and_mail_links_are_followed() {
    assert!(is_safe_link("https://example.invalid"));
    assert!(is_safe_link("mailto:someone@example.invalid"));
    assert!(!is_safe_link("file:///etc/passwd"));
    assert!(!is_safe_link("javascript:alert(1)"));
}

#[test]
fn lang_candidates_maps_aliases() {
    assert_eq!(lang_candidates("rust"), vec!["rust"]);
    assert_eq!(lang_candidates("rs"), vec!["rs", "rust"]);
    assert_eq!(lang_candidates("JavaScript"), vec!["javascript", "js"]);
    assert_eq!(
        lang_candidates("python extra-flag"),
        vec!["python", "python3"]
    );
    assert_eq!(lang_candidates("bash"), vec!["bash", "sh"]);
    assert_eq!(lang_candidates("c++"), vec!["c++", "cpp"]);
    assert!(lang_candidates("").is_empty());
    assert!(lang_candidates("   ").is_empty());
}

fn render_all(document: &Document, resolved: &Vec<Resolved>) -> Rendering {
    let rendered: Rendered<()> = Rendered::new();
    let plan = rendered.plan(true, &document.definitions, &document.sources);
    render_markdown(&document.events, &document.changed(plan), resolved, false)
}

fn render(text: &str) -> Rendering {
    render_all(&read_document(text, &Vec::new()), &Vec::new())
}

#[test]
fn blocks_are_separated_by_blank_lines() {
    let rendering = render("# Title\n\nOne **two**\nthree\n\n---\n");
    assert_eq!(rendering.text, "Title\n\nOne two three\n\n\u{fffc}\n\n");
    assert_eq!(
        rendering.spans,
        vec![
            (0, 5, vec![TextTag::Heading(1)]),
            (7, 11, vec![]),
            (11, 14, vec![TextTag::Bold]),
            (14, 15, vec![]),
            (15, 20, vec![]),
        ]
    );
    assert_eq!(rendering.blocks.len(), 3);
    assert_eq!(rendering.blocks[2].widgets, vec![(0, Widget::Rule)]);
    assert_eq!((rendering.blocks[1].start, rendering.blocks[1].end), (7, 22));
}

#[test]
fn items_hang_after_their_markers() {
    let rendering = render("1. a\n   - b\n2. [x] c\n\n> q\n");
    assert_eq!(
        rendering.text,
        "1. a\n◦ b\n2. \u{25a0} c\n\nq\n\n"
    );
    assert_eq!(
        rendering.spans[0],
        (0, 3, vec![TextTag::Bold, TextTag::List(0)])
    );
    assert_eq!(
        rendering.spans[2],
        (5, 7, vec![TextTag::Bold, TextTag::List(0), TextTag::List(1)])
    );
    assert_eq!(
        rendering.spans.last(),
        Some(&(17, 18, vec![TextTag::Quote(1)]))
    );
}

#[test]
fn links_are_kept_where_they_stand_in_their_block() {
    let rendering = render("a\n\nb [c](https://x) d\n");
    assert_eq!(
        rendering.blocks[1].links,
        vec![(2, 3, String::from("https://x"))]
    );
}

#[test]
fn code_blocks_and_tables_are_widgets() {
    let rendering = render("- x\n\n  ```rs\n  code\n  ```\n\n> | a | b |\n> |:-:|--:|\n> | **1** | [l](file:///x) |\n");
    let Widget::Code {
        code,
        info,
        lists,
        quotes,
    } = &rendering.blocks[0].widgets[0].1
    else {
        panic!("no code block");
    };
    assert_eq!((code.as_str(), info.as_str(), *lists, *quotes), ("code", "rs", 1, 0));
    assert_eq!(block_indent(*lists, *quotes), 20);
    let Widget::Table {
        rows,
        alignments,
        lists,
        quotes,
    } = &rendering.blocks[1].widgets[0].1
    else {
        panic!("no table");
    };
    assert_eq!(block_indent(*lists, *quotes), 24);
    assert_eq!(alignments, &vec![Alignment::Center, Alignment::Right]);
    assert_eq!(rows[0][0], vec![CellPart::Text(String::from("a"))]);
    assert_eq!(
        rows[1],
        vec![
            vec![
                CellPart::Mark(Mark::BoldStart),
                CellPart::Text(String::from("1")),
                CellPart::Mark(Mark::BoldEnd)
            ],
            vec![
                CellPart::Mark(Mark::UnderlineStart),
                CellPart::Text(String::from("l")),
                CellPart::Mark(Mark::UnderlineEnd)
            ],
        ]
    );
    assert_eq!(
        table_grid(rows, alignments)[..4],
        [
            GridItem::Cell {
                line: 0,
                place: 0,
                row: 0,
                column: 0,
                align: CellAlign::Center
            },
            GridItem::Cell {
                line: 0,
                place: 2,
                row: 0,
                column: 1,
                align: CellAlign::End
            },
            GridItem::ColumnLine { line: 0, place: 1 },
            GridItem::RowLine {
                line: 1,
                columns: 3
            },
        ]
    );
}

#[test]
fn cells_are_written_as_markup() {
    let cell = vec![
        CellPart::LinkStart(String::from("https://x/?a&b")),
        CellPart::Text(String::from("a<b")),
        CellPart::Mark(Mark::LinkEnd),
        CellPart::Code(String::from("c")),
    ];
    assert_eq!(cell_texts(&cell), vec!["https://x/?a&b", "a<b", "c"]);
    let escaped = vec![
        String::from("https://x/?a&amp;b"),
        String::from("a&lt;b"),
        String::from("c"),
    ];
    assert_eq!(
        cell_markup(&cell, &escaped),
        "<a href=\"https://x/?a&amp;b\">a&lt;b</a><tt>c</tt>"
    );
    assert_eq!(cell_width(&cell), 4);
    assert_eq!(
        cell_width(&vec![CellPart::Text("x".repeat(60))]),
        40
    );
}

#[test]
fn images_show_their_picture_or_their_text() {
    let text = "![alt *text*](a.png) ![other](b.png) ![](c.png)\n";
    let document = read_document(text, &Vec::new());
    let mut images = Vec::new();
    let resolved: Vec<Resolved> = document
        .events
        .iter()
        .enumerate()
        .map(|(n, event)| match event {
            MdEvent::Start(MdTag::Image { dest_url, .. }) => {
                images.push(n);
                match dest_url.as_str() {
                    "a.png" => Resolved::Shown,
                    "b.png" => Resolved::Elsewhere,
                    _ => Resolved::Unreadable,
                }
            }
            _ => Resolved::Elsewhere,
        })
        .collect();
    let rendering = render_all(&document, &resolved);
    assert_eq!(rendering.text, "\u{fffc} other \n\n");
    assert_eq!(rendering.alts, vec![(images[0], String::from("alt text"))]);
    assert_eq!(rendering.blocks[0].images, vec![images[0], images[2]]);
    assert!(rendering
        .spans
        .contains(&(2, 7, vec![TextTag::ImageAlt])));
}

#[test]
fn raw_html_shows_its_text() {
    let rendering = render("a <b>b</b><br>c[^n]\n\n<!-- gone -->\n\n[^n]: note\n");
    assert_eq!(rendering.text, "a b\nc[n]\n\n[n]: note\n\n\u{21a9}\n\n");
}

fn extend(rendered: &mut Rendered<String>, text: &str, shown: &mut Vec<char>) -> (usize, usize) {
    let document = read_document(text, &Vec::new());
    let plan = rendered.plan(true, &document.definitions, &document.sources);
    let rendering = render_markdown(
        &document.events,
        &document.changed(plan),
        &Vec::new(),
        plan.from > 0,
    );
    let new: Vec<char> = rendering.text.chars().collect();
    let blocks = rendering
        .blocks
        .iter()
        .enumerate()
        .map(|(i, block)| {
            let source = document.sources[plan.prefix + i].clone();
            let text = new[block.start..block.end].iter().collect();
            RenderedBlock::new(source, block, text)
        })
        .collect();
    shown.splice(plan.from..plan.to, new);
    rendered.replace(plan, blocks, document.definitions);
    (plan.prefix, plan.suffix)
}

#[test]
fn only_changed_blocks_are_rendered_again() {
    let mut rendered: Rendered<String> = Rendered::new();
    let mut shown = Vec::new();
    let first = "# One\n\ntwo\n\n[three](https://3)\n";
    let second = "# One\n\ntwo and more\n\nnew\n\n[three](https://3)\n";
    assert_eq!(extend(&mut rendered, first, &mut shown), (0, 0));
    assert_eq!(rendered.links(), vec![(10, 15, String::from("https://3"))]);
    assert_eq!(extend(&mut rendered, second, &mut shown), (1, 1));
    assert_eq!(
        shown.iter().collect::<String>(),
        render(second).text
    );
    assert_eq!(rendered.links(), vec![(24, 29, String::from("https://3"))]);
    assert_eq!(rendered.start(2), 19);
    // A new definition can change any block.
    let third = format!("{second}\n[a]: /a\n");
    assert_eq!(extend(&mut rendered, &third, &mut shown), (0, 0));
    assert_eq!(
        shown.iter().collect::<String>(),
        render(&third).text
    );
    let texts: Vec<String> = rendered.blocks.iter().map(|block| block.extra.clone()).collect();
    assert_eq!(texts.concat(), render(&third).text);
}

#[test]
fn the_preview_reads_what_github_reads() {
    let rendering = render("---\ntitle: x\n---\n\n> [!TIP]\n> see www.example.com\n\nterm\n\n: definition\n");
    assert_eq!(
        rendering.text,
        "\u{fffc}\n\nTip\n\nsee www.example.com\n\nterm\ndefinition\n\n"
    );
    assert!(matches!(
        &rendering.blocks[0].widgets[0].1,
        Widget::Code { code, .. } if code == "title: x"
    ));
    assert_eq!(rendering.blocks[1].links.len(), 1);
    assert!(rendering
        .spans
        .contains(&(29, 33, vec![TextTag::Bold])));
}

#[test]
fn math_is_typeset_or_shows_its_source() {
    let document = read_document("a $x$ b\n\n$$y$$\n", &Vec::new());
    let drawn = render_all(&document, &vec![Resolved::Shown; document.events.len()]);
    assert_eq!(drawn.text, "a \u{fffc} b\n\n\u{fffc}\n\n");
    assert!(matches!(
        drawn.blocks[1].widgets[0].1,
        Widget::Math { display: true, .. }
    ));
    let source = render_all(&document, &Vec::new());
    assert_eq!(source.text, "a x b\n\ny\n\n");
    assert!(source.spans.contains(&(2, 3, vec![TextTag::Code])));
}

#[test]
fn the_tags_of_text_styles_style_raw_html() {
    let rendering = render("a <kbd>b</kbd><u>c</u> d\n\n<script>no</script>\n\n<b>open\n\nafter\n");
    assert_eq!(rendering.text, "a bc d\n\nopen\n\nafter\n\n");
    assert!(rendering.spans.contains(&(2, 3, vec![TextTag::Keyboard])));
    assert!(rendering.spans.contains(&(3, 4, vec![TextTag::Underline])));
    let at = "a bc d\n\nopen\n\n".chars().count();
    assert!(rendering.spans.contains(&(at, at + 5, vec![])));
}

#[test]
fn footnotes_and_headings_are_found() {
    let text = "# One\n\n# One\n\na[^n]\n\n[^n]: note\n";
    let mut rendered: Rendered<String> = Rendered::new();
    let mut shown = Vec::new();
    extend(&mut rendered, text, &mut shown);
    assert_eq!(
        shown.iter().collect::<String>(),
        "One\n\nOne\n\na[n]\n\n[n]: note\n\n\u{21a9}\n\n"
    );
    assert_eq!(find_heading(text, "one"), Some(0));
    assert_eq!(find_heading(text, "one-1"), Some(1));
    assert_eq!(find_heading(text, "two"), None);
    assert_eq!(rendered.place(&Place::Heading, 1), Some(5));
    assert_eq!(rendered.place(&Place::Heading, 2), None);
    assert_eq!(rendered.place(&Place::Reference(String::from("n")), 0), Some(11));
    assert_eq!(rendered.place(&Place::Note(String::from("n")), 0), Some(16));
    assert_eq!(
        rendered.links(),
        vec![
            (11, 14, String::from("#fn:n")),
            (27, 28, String::from("#fnref:n")),
        ]
    );
}

#[test]
fn links_lead_where_they_may() {
    let target = |url: &str| link_target(url, true);
    assert_eq!(
        target("https://a.b"),
        LinkTarget::Web(String::from("https://a.b"))
    );
    assert_eq!(target("#a-b"), LinkTarget::Heading(String::from("a-b")));
    assert_eq!(target("#fn:n"), LinkTarget::Note(String::from("n")));
    assert_eq!(target("#fnref:n"), LinkTarget::Reference(String::from("n")));
    assert_eq!(
        target("a/b.md#c"),
        LinkTarget::File(String::from("a/b.md"))
    );
    assert_eq!(target("a/b.png"), LinkTarget::Nothing);
    assert_eq!(target("/etc/a.md"), LinkTarget::Nothing);
    assert_eq!(target("file:///a.md"), LinkTarget::Nothing);
    assert_eq!(target("javascript:a.md"), LinkTarget::Nothing);
    assert_eq!(link_target("a.md", false), LinkTarget::Nothing);
}

#[test]
fn boxes_are_ticked_in_the_source() {
    let text = "\u{e9}\n\n- [ ] a\n- [X] b\n- c\n";
    assert_eq!(tick(text, 0), Some((6, 'x')));
    assert_eq!(tick(text, 1), Some((14, ' ')));
    assert_eq!(tick(text, 2), None);
    assert_eq!(tick_box("[ ]", false, &(0..3)), Some((1, 'x')));
    assert_eq!(tick_box("[ ]", false, &(1..3)), None);
    assert_eq!(tick_box("ab", false, &(0..2)), None);
    assert_eq!(tick_box("\u{e9}[ ]", false, &(1..3)), None);
}

#[test]
fn a_click_finds_the_box_it_is_on() {
    let text = "\u{25a1} a\n\n- [ ] b\n- [x] c\n";
    let mut rendered: Rendered<String> = Rendered::new();
    let mut shown = Vec::new();
    extend(&mut rendered, text, &mut shown);
    assert_eq!(
        shown.iter().collect::<String>(),
        "\u{25a1} a\n\n\u{2022} \u{25a1} b\n\u{2022} \u{25a0} c\n\n"
    );
    assert_eq!(rendered.box_at(0), None);
    assert_eq!(rendered.box_at(7), Some(0));
    assert_eq!(rendered.box_at(13), Some(1));
    assert_eq!(rendered.box_at(14), None);
}

#[test]
fn quotes_and_alerts_are_boxed() {
    let text = "a\n\n> b\n> > c\n\n> [!TIP]\n> d\n";
    let mut rendered: Rendered<String> = Rendered::new();
    let mut shown = Vec::new();
    extend(&mut rendered, text, &mut shown);
    assert_eq!(
        shown.iter().collect::<String>(),
        "a\n\nb\n\nc\n\nTip\n\nd\n\n"
    );
    assert_eq!(
        rendered.quotes(),
        vec![
            QuoteBox {
                start: 3,
                end: 7,
                alert: None
            },
            QuoteBox {
                start: 9,
                end: 15,
                alert: Some(Alert::Tip)
            },
        ]
    );
    let rendering = render("> [!TIP]\n> d\n");
    let titled: Vec<_> = rendering
        .spans
        .iter()
        .filter(|(_, _, tags)| tags.contains(&TextTag::Alert(Alert::Tip)))
        .map(|(start, end, _)| (*start, *end))
        .collect();
    assert_eq!(titled, [(0, 3)]);
    assert_eq!(TextTag::Alert(Alert::Tip).name(), "alert-tip");
    assert_eq!(Alert::Tip.color(true), "#8de698");
    assert_eq!(Alert::Caution.color(false), "#c00023");
}

#[test]
fn blocks_of_raw_html_align_the_markdown_in_them() {
    let rendering = render(
        "<div align=\"center\">\n\n# T\n\nx\n\n</div>\n\ny\n\n<p align=\"right\">z</p>\n",
    );
    assert_eq!(rendering.text, "T\n\nx\n\ny\n\nz\n\n");
    let tags = |at: usize| -> Vec<TextTag> {
        rendering
            .spans
            .iter()
            .filter(|(start, end, _)| *start <= at && at < *end)
            .flat_map(|(_, _, tags)| tags.iter().copied())
            .collect()
    };
    assert!(tags(0).contains(&TextTag::Align(HtmlAlign::Center)));
    assert!(tags(3).contains(&TextTag::Align(HtmlAlign::Center)));
    assert_eq!(tags(6), []);
    assert!(tags(9).contains(&TextTag::Align(HtmlAlign::Right)));
    assert_eq!(rendering.blocks.len(), 3);
    assert_eq!(TextTag::Align(HtmlAlign::Right).name(), "align-right");
}

#[test]
fn raw_html_ties_blocks_together() {
    let text = "a\n\n<details>\n\nb\n\n<div>\n\nc\n\n</div>\n\nd\n\n</details>\n\ne\n";
    let events = parse::events(text, TABLES);
    let top = top_level_blocks(&events);
    assert_eq!(top.len(), 9);
    let groups = group_blocks(&events, &top);
    let sources: Vec<&str> = groups
        .iter()
        .map(|(_, source)| text[source.clone()].trim_end())
        .collect();
    assert_eq!(
        sources,
        ["a", "<details>\n\nb\n\n<div>\n\nc\n\n</div>\n\nd\n\n</details>", "e"]
    );
    assert_eq!(groups[1].0, top[1].0.start..top[7].0.end);
}

#[test]
fn details_open_and_close_and_stay_as_they_were_left() {
    let first = "<details><summary>More</summary>\n\nHidden\n\n</details>\n\nafter\n\n\
                 <details open><summary>B</summary>\n\nb\n\n</details>\n";
    let mut rendered: Rendered<String> = Rendered::new();
    let mut shown = Vec::new();
    let mut open = Folds::new();
    let document = read_document(first, &Vec::new());
    let plan = rendered.plan(true, &document.definitions, &document.sources);
    extend(&mut rendered, first, &mut shown);
    open.rerender(&Rendered::new(), plan, &rendered.blocks);
    assert_eq!(open.open, [false, true]);
    let found = folds(&rendered);
    assert_eq!(
        shown.iter().collect::<String>(),
        "More\nHidden\n\nafter\n\nB\nb\n\n"
    );
    assert_eq!(
        found,
        [
            Fold {
                number: 0,
                summary: 0,
                content: 5,
                end: 13
            },
            Fold {
                number: 1,
                summary: 20,
                content: 22,
                end: 25
            },
        ]
    );
    assert_eq!(hidden(&open.open, &found), [(5, 13)]);
    assert_eq!(fold_at(&found, 2), Some(0));
    assert_eq!(fold_at(&found, 6), None);
    assert_eq!(fold_at(&found, 21), Some(1));
    open.toggle(0);
    open.toggle(1);
    assert_eq!(hidden(&open.open, &found), [(22, 25)]);

    let second = first.replace("Hidden", "Still hidden");
    let document = read_document(&second, &Vec::new());
    let plan = rendered.plan(true, &document.definitions, &document.sources);
    let before: Rendered<String> = Rendered {
        blocks: std::mem::take(&mut rendered.blocks),
        definitions: Vec::new(),
    };
    let mut after: Rendered<String> = Rendered::new();
    extend(&mut after, &second, &mut Vec::new());
    let changed: Vec<RenderedBlock<String>> = after
        .blocks
        .drain(plan.prefix..document.sources.len() - plan.suffix)
        .collect();
    open.rerender(&before, plan, &changed);
    assert_eq!(open.open, [true, false]);
}

#[test]
fn code_blocks_are_listed_in_order() {
    assert_eq!(
        code_blocks("```rs\na\n\n```\n\n- x\n\n      b\n"),
        [
            (String::from("rs"), String::from("a")),
            (String::new(), String::from("b"))
        ]
    );
}

#[test]
fn any_link_is_found_under_a_click() {
    let links = vec![(2, 5, String::from("#a")), (7, 9, String::from("https://b"))];
    assert_eq!(link_holding_at(&links, 4), Some(String::from("#a")));
    assert_eq!(link_at(&links, 4), None);
    assert_eq!(link_at(&links, 7), Some(String::from("https://b")));
    assert_eq!(link_holding_at(&links, 5), None);
}

fn text_part(text: &str) -> CellPart<String> {
    CellPart::Text(String::from(text))
}

fn cells(text: &str, resolved: &Vec<Resolved>) -> Vec<Vec<CellPart<String>>> {
    let rendering = render_all(&read_document(text, &Vec::new()), resolved);
    for (_, widget) in rendering.blocks.into_iter().flat_map(|block| block.widgets) {
        if let Widget::Table { rows, .. } = widget {
            return rows.into_iter().nth(1).unwrap();
        }
    }
    panic!("no table");
}

#[test]
fn cells_keep_links_styles_and_footnotes() {
    let text = "| a | b | c | d |\n|---|---|---|---|\n| [h](#top) [m](b.md) | <b>x</b><br>y | z[^1] | <u>q |\n\n[^1]: n\n";
    let row = cells(text, &Vec::new());
    assert_eq!(
        row[0],
        vec![
            CellPart::LinkStart(String::from("#top")),
            text_part("h"),
            CellPart::Mark(Mark::LinkEnd),
            text_part(" "),
            CellPart::LinkStart(String::from("b.md")),
            text_part("m"),
            CellPart::Mark(Mark::LinkEnd),
        ]
    );
    assert_eq!(
        row[1],
        vec![
            CellPart::Mark(Mark::BoldStart),
            text_part("x"),
            CellPart::Mark(Mark::BoldEnd),
            text_part("\n"),
            text_part("y"),
        ]
    );
    assert_eq!(
        row[2],
        vec![
            text_part("z"),
            CellPart::LinkStart(String::from("#fn:1")),
            text_part("[1]"),
            CellPart::Mark(Mark::LinkEnd),
        ]
    );
    // What does not end in the cell ends with it.
    assert_eq!(
        row[3],
        vec![
            CellPart::Mark(Mark::UnderlineStart),
            text_part("q"),
            CellPart::Mark(Mark::UnderlineEnd),
        ]
    );
}

#[test]
fn styles_of_cells_stand_one_inside_the_other() {
    let row = cells("| a |\n|---|\n| <i>x **y</i> z** </b> |\n", &Vec::new());
    assert_eq!(
        row[0],
        vec![
            CellPart::Mark(Mark::ItalicStart),
            text_part("x "),
            CellPart::Mark(Mark::BoldStart),
            text_part("y"),
            CellPart::Mark(Mark::BoldEnd),
            CellPart::Mark(Mark::ItalicEnd),
            CellPart::Mark(Mark::BoldStart),
            text_part(" z"),
            CellPart::Mark(Mark::BoldEnd),
            text_part(" "),
        ]
    );
    let texts: Vec<String> = cell_texts(&row[0]);
    assert_eq!(
        cell_markup(&row[0], &texts),
        "<i>x <b>y</b></i><b> z</b> "
    );
}

#[test]
fn formulas_of_cells_are_set_in_the_line() {
    let text = "| a | b |\n|---|---|\n| **x $1$ y** | $$2$$ |\n";
    let events = read_document(text, &Vec::new()).events;
    let math: Vec<usize> = (0..events.len())
        .filter(|n| matches!(events[*n], MdEvent::InlineMath(_) | MdEvent::DisplayMath(_)))
        .collect();
    let mut resolved = vec![Resolved::Unreadable; events.len()];
    assert_eq!(cells(text, &resolved)[1], vec![CellPart::Code(String::from("2"))]);
    resolved[math[0]] = Resolved::Shown;
    resolved[math[1]] = Resolved::Shown;
    let row = cells(text, &resolved);
    assert_eq!(
        cell_runs(&row[0]),
        vec![
            CellRun::Text(vec![
                CellPart::Mark(Mark::BoldStart),
                text_part("x "),
                CellPart::Mark(Mark::BoldEnd),
            ]),
            CellRun::Math { event: math[0] },
            CellRun::Text(vec![
                CellPart::Mark(Mark::BoldStart),
                text_part(" y"),
                CellPart::Mark(Mark::BoldEnd),
            ]),
        ]
    );
    assert_eq!(row[1], vec![CellPart::Math { event: math[1] }]);
}

#[test]
fn scripts_in_paragraphs_are_not_shown() {
    let rendering = render("a <script>b `c`</script>d :tada:\n");
    assert_eq!(rendering.text, "a d 🎉\n\n");
}

#[test]
fn rendering_in_part_is_rendering_the_whole() {
    let texts = [
        "# One\n\ntwo\n\n- a\n- b\n",
        "# One\n\n<!-- gone -->\n\n[x](https://x) y\n\n- a\n- b\n",
        "<!-- gone -->\n\ntwo\n\n| t |\n|---|\n| u |\n\n- a\n- b\n",
        "two\n",
        "",
    ];
    let mut rendered: Rendered<String> = Rendered::new();
    let mut shown = Vec::new();
    for text in texts {
        extend(&mut rendered, text, &mut shown);
        let mut whole: Rendered<String> = Rendered::new();
        let mut again = Vec::new();
        extend(&mut whole, text, &mut again);
        assert_eq!(shown, again);
        assert_eq!(rendered.links(), whole.links());
        // Nothing is rendered of a document that did not change.
        let document = read_document(text, &Vec::new());
        let plan = rendered.plan(true, &document.definitions, &document.sources);
        assert!(plan.from == plan.to && document.changed(plan).is_empty());
    }
}

#[test]
fn shortcodes_no_font_has_stay() {
    let missing = vec![(String::from("🎉"), String::from("tada"))];
    let document = read_document(":tada: 🎉 :rocket:\n", &missing);
    let rendering = render_all(&document, &Vec::new());
    assert_eq!(rendering.text, ":tada: 🎉 🚀\n\n");
}

#[test]
fn blocks_of_markup_alone_show_nothing() {
    assert_eq!(render("<br>\n").text, "");
    assert_eq!(render("a\n\n<br>\n\nb\n").text, "a\n\nb\n\n");
    assert_eq!(render("<div align=\"center\"><br></div>\n\nb\n").text, "b\n\n");
    // Its blocks and `<details>` elements stay.
    let rendering = render("<details><br>\n\nx\n\n</details>\n");
    assert_eq!(rendering.text, "x\n\n");
    let places: Vec<&Place<String>> = rendering.blocks[0].places.iter().map(|(place, _)| place).collect();
    assert_eq!(places, [&Place::Details(false), &Place::DetailsEnd]);
    // Text beside the markup brings its line breaks, and so does a break in a line.
    assert_eq!(render("<p>a<br>b</p>\n").text, "a\nb\n\n");
    assert_eq!(render("a<br>\n").text, "a\n\n");
    // A paragraph that is one line break and nothing else gets another only at the start.
    assert_eq!(render("<span></span><br>\n").text, "\n\n");
    assert_eq!(render("a\n\n<span></span><br>\n").text, "a\n\n\n");
}

#[test]
fn markup_alone_renders_in_part_as_in_the_whole() {
    let texts = [
        "<br>\n\nA\n",
        "A\n\n<br>\n",
        "<br>\n",
        "<br>\n\nA\n\n<br>\n",
        "A\n",
        "<br>hello\n",
        "A\n\n<br>hello\n",
        "<br>hello\n\n<br>\n",
        "<br>\n\n<br>hello\n",
        "",
    ];
    for first in texts {
        for second in texts {
            let mut rendered: Rendered<String> = Rendered::new();
            let mut shown = Vec::new();
            extend(&mut rendered, first, &mut shown);
            extend(&mut rendered, second, &mut shown);
            let mut whole: Rendered<String> = Rendered::new();
            let mut again = Vec::new();
            extend(&mut whole, second, &mut again);
            assert_eq!(shown, again, "{first:?} then {second:?}");
        }
    }
}
