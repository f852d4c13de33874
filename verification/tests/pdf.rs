use blink::event::{DocEvent, MdEvent, MdTag};
use blink::export::{CodeRun, CodeStyle};
use blink::images::local_image_path;
use blink::page::document_events;
use blink::paging::{
    cell_align, columns, line_step, LineStep, TablePages, TablePart, TableStep,
};
use blink::pdf::{read_blocks, Block, Inline, Paragraph, LIST_INDENT};
use blink::setting::{
    attributes, attributes_of, block_attributes, code_attributes, heading_rank, line_ranges,
    link_part, link_uri, outline_parent, places, saturating_i32, saturating_u32, Attribute,
};
use blink::table::CellAlign;
use pulldown_cmark::Alignment;

fn shown(event: &DocEvent) -> bool {
    match event {
        MdEvent::Start(MdTag::Image { dest_url, .. }) => local_image_path(dest_url, None).is_some(),
        _ => false,
    }
}

fn blocks(text: &str) -> Vec<Block> {
    let shown: Vec<bool> = document_events(text).iter().map(shown).collect();
    read_blocks(text, &shown, &Vec::new())
}

/// The blocks of a document all of whose images lead to files.
fn blocks_with_images(text: &str) -> Vec<Block> {
    let shown = vec![true; document_events(text).len()];
    read_blocks(text, &shown, &Vec::new())
}

fn plain() -> Inline {
    Inline::default()
}

#[test]
fn list_items_hang_after_their_markers() {
    let blocks = blocks("- one\n- two\n  1. nested");
    let texts: Vec<(&str, i128, usize)> = blocks
        .iter()
        .filter_map(|block| match block {
            Block::Text {
                paragraph,
                indent,
                marker,
                ..
            } => Some((paragraph.text.as_str(), *indent, *marker)),
            _ => None,
        })
        .collect();
    assert_eq!(
        texts,
        [
            ("• one", 0, "• ".len()),
            ("• two", 0, "• ".len()),
            ("1. nested", LIST_INDENT, "1. ".len()),
        ]
    );
}

#[test]
fn links_are_kept_only_for_web_and_mail() {
    let blocks = blocks("[web](https://example.com) [bad](javascript:x) [mail](mailto:a@b)");
    let Some(Block::Text { paragraph, .. }) = blocks.first() else {
        panic!("a paragraph");
    };
    let links: Vec<(&str, &str)> = paragraph
        .links
        .iter()
        .map(|(start, end, url)| (&paragraph.text[*start..*end], url.as_str()))
        .collect();
    assert_eq!(
        links,
        [("web", "https://example.com"), ("mail", "mailto:a@b")]
    );
}

#[test]
fn images_outside_the_document_folder_leave_their_text() {
    let blocks = blocks("![a picture](/etc/hostname)");
    let Some(Block::Text { paragraph, .. }) = blocks.first() else {
        panic!("a paragraph");
    };
    assert_eq!(paragraph.text, "a picture");
    assert_eq!(paragraph.styles, [(0, 9, Inline { italic: true, ..plain() })]);
}

#[test]
fn images_that_are_shown_keep_their_text_aside() {
    let blocks = blocks_with_images("before ![a picture](a.png) after");
    assert_eq!(blocks.len(), 3);
    assert!(matches!(&blocks[0], Block::Text { paragraph, .. } if paragraph.text == "before "));
    assert!(matches!(
        &blocks[1],
        Block::Image { alt, event: 2, indent: 0, quote: 0 } if alt == "a picture"
    ));
    assert!(matches!(&blocks[2], Block::Text { paragraph, .. } if paragraph.text == " after"));
}

#[test]
fn styles_cover_the_bytes_of_their_text() {
    let blocks = blocks("é **bold** `code` *it* ~~gone~~[^n]");
    let Some(Block::Text { paragraph, gap, .. }) = blocks.first() else {
        panic!("a paragraph");
    };
    assert_eq!(*gap, 8);
    assert_eq!(paragraph.text, "é bold code it gone[^n]");
    assert_eq!(
        paragraph.styles,
        [
            (3, 7, Inline { bold: true, ..plain() }),
            (8, 12, Inline { code: true, ..plain() }),
            (13, 15, Inline { italic: true, ..plain() }),
            (16, 20, Inline { strikethrough: true, ..plain() }),
        ]
    );
}

#[test]
fn headings_quotes_code_tables_and_rules_are_blocks_of_their_own() {
    let blocks = blocks(
        "# Title\n\n> quoted\n\n```rust\nlet x = 1;\n```\n\n| a | b |\n|--:|---|\n| 1 | 2 |\n\n---\n",
    );
    assert_eq!(blocks.len(), 5);
    assert!(matches!(
        &blocks[0],
        Block::Text { paragraph, heading: Some(1), indent: 0, marker: 0, quote: 0, gap: 8, .. }
            if paragraph.text == "Title"
    ));
    assert!(matches!(
        &blocks[1],
        Block::Text { paragraph, heading: None, indent: 16, marker: 0, quote: 1, gap: 8, .. }
            if paragraph.text == "quoted"
    ));
    assert!(matches!(
        &blocks[2],
        Block::Code { code, number: 0, indent: 0, quote: 0 } if code == "let x = 1;"
    ));
    let Block::Table { rows, alignments, .. } = &blocks[3] else {
        panic!("a table");
    };
    assert_eq!(columns(rows), 2);
    assert_eq!(rows[1][0].text, "1");
    assert_eq!(alignments, &[Alignment::Right, Alignment::None]);
    assert_eq!(cell_align(alignments, 0), CellAlign::End);
    assert_eq!(cell_align(alignments, 1), CellAlign::Start);
    assert_eq!(cell_align(alignments, 2), CellAlign::Start);
    assert_eq!(blocks[4], Block::Rule);
}

#[test]
fn the_last_item_of_a_list_keeps_its_distance() {
    let blocks = blocks("- one\n- [x] two\n\n[^a]: Note\n\ntext [^a]");
    let gaps: Vec<(&str, u32)> = blocks
        .iter()
        .filter_map(|block| match block {
            Block::Text { paragraph, gap, .. } => Some((paragraph.text.as_str(), *gap)),
            _ => None,
        })
        .collect();
    assert_eq!(
        gaps,
        [
            ("• one", 3),
            ("• ■ two", 8),
            ("[a]: Note", 8),
            ("\u{21a9}", 8),
            ("text [a]", 8),
        ]
    );
}

#[test]
fn attributes_follow_the_styles() {
    let style = Inline {
        bold: true,
        code: true,
        link: true,
        footnote: true,
        ..plain()
    };
    assert_eq!(
        attributes_of(style),
        [
            Attribute::Bold,
            Attribute::Monospace,
            Attribute::Scale(90),
            Attribute::Background,
            Attribute::BackgroundAlpha,
            Attribute::LinkColor,
            Attribute::Underline,
            Attribute::Rise,
            Attribute::Scale(80),
        ]
    );
    let mut paragraph = Paragraph::new();
    paragraph.push("a", plain());
    paragraph.push("bc", Inline { italic: true, ..plain() });
    paragraph.push("", Inline { bold: true, ..plain() });
    assert_eq!(attributes(&paragraph), [(1, 3, Attribute::Italic)]);
    let set = block_attributes(true, true);
    assert_eq!(set.over, [Attribute::Bold]);
    assert_eq!(set.under, [Attribute::Italic, Attribute::Dim]);
    let none = block_attributes(false, false);
    assert!(none.over.is_empty() && none.under.is_empty());
}

#[test]
fn code_runs_are_coloured() {
    let runs = vec![CodeRun {
        range: 2..5,
        style: CodeStyle {
            color: Some((255, 0, 1)),
            bold: true,
            italic: false,
        },
    }];
    assert_eq!(
        code_attributes(&runs),
        [
            (2, 5, Attribute::Color(65535, 0, 257)),
            (2, 5, Attribute::Bold),
        ]
    );
}

#[test]
fn headings_go_under_those_of_higher_levels() {
    let mut outline: Vec<(usize, i32)> = Vec::new();
    assert_eq!(outline_parent(&mut outline, 1), None);
    outline.push((1, 10));
    assert_eq!(outline_parent(&mut outline, 3), Some(10));
    outline.push((3, 11));
    assert_eq!(outline_parent(&mut outline, 2), Some(10));
    outline.push((2, 12));
    assert_eq!(outline, [(1, 10), (2, 12)]);
    assert_eq!(outline_parent(&mut outline, 1), None);
    assert!(outline.is_empty());
}

#[test]
fn heading_sizes_end_with_the_fourth_level() {
    let ranks: Vec<usize> = (0..8).map(heading_rank).collect();
    assert_eq!(ranks, [0, 0, 1, 2, 3, 3, 3, 3]);
}

#[test]
fn link_addresses_are_quoted() {
    assert_eq!(link_uri("https://a.b/c"), "https://a.b/c");
    assert_eq!(link_uri(r"https://a/'b\c"), r"https://a/\'b\\c");
}

#[test]
fn links_are_cut_to_their_lines() {
    assert_eq!(line_ranges(&vec![0, 5, 9], 12), [(0, 5), (5, 9), (9, 12)]);
    assert!(line_ranges(&Vec::new(), 12).is_empty());
    assert_eq!(link_part((3, 7), (0, 5)), Some((3, 5)));
    assert_eq!(link_part((3, 7), (5, 9)), Some((5, 7)));
    assert_eq!(link_part((3, 7), (9, 12)), None);
    assert_eq!(link_part((4, 2), (0, 9)), None);
}

#[test]
fn positions_saturate() {
    assert_eq!(saturating_u32(7), 7);
    assert_eq!(saturating_u32(usize::MAX), u32::MAX);
    assert_eq!(saturating_i32(7), 7);
    assert_eq!(saturating_i32(1 << 31), i32::MAX);
}

#[test]
fn a_page_ends_before_a_line_that_does_not_fit() {
    let fits = vec![true, true, false, true];
    assert_eq!(
        line_step(0, &fits, false),
        LineStep::Lines { start: 0, end: 2 }
    );
    assert_eq!(line_step(2, &fits, false), LineStep::TurnPage);
    assert_eq!(
        line_step(2, &fits, true),
        LineStep::Lines { start: 2, end: 4 }
    );
    assert_eq!(line_step(4, &fits, true), LineStep::Done);
}

#[test]
fn a_table_repeats_its_header_on_each_page() {
    let mut pages = TablePages::new(3, false);
    assert_eq!(pages.step(true), TableStep::Row(0));
    assert_eq!(pages.step(true), TableStep::Row(1));
    assert_eq!(pages.step(false), TableStep::TurnPage);
    assert_eq!(pages.step(true), TableStep::RepeatHeader);
    assert_eq!(pages.part, TablePart::Header);
    assert_eq!(pages.step(true), TableStep::Row(2));
    assert_eq!(pages.step(true), TableStep::Done);
}

#[test]
fn links_lead_to_headings_and_footnotes() {
    let blocks = blocks("# A *Title*\n\n[up](#a-title) [no](file:///x) a[^n] b[^n]\n\n[^n]: Note\n");
    assert!(matches!(
        &blocks[0],
        Block::Text { name: Some(name), .. } if name == "a-title"
    ));
    let Block::Text { paragraph, .. } = &blocks[1] else {
        panic!("a paragraph");
    };
    assert_eq!(paragraph.text, "up no a[n] b[n]");
    assert_eq!(
        paragraph.links,
        [
            (0, 2, String::from("#a-title")),
            (7, 10, String::from("#fn:n")),
            (12, 15, String::from("#fn:n")),
        ]
    );
    assert_eq!(paragraph.marks, [(String::from("fnref:n"), 7)]);
    assert!(matches!(
        &blocks[2],
        Block::Text { paragraph, name: Some(name), .. }
            if paragraph.text == "[n]: Note" && name == "fn:n"
    ));
    let Block::Text { paragraph, .. } = &blocks[3] else {
        panic!("an arrow");
    };
    assert_eq!(paragraph.links, [(0, 3, String::from("#fnref:n"))]);
    assert_eq!(places(&blocks), ["a-title", "fnref:n", "fn:n"]);
}

#[test]
fn math_is_set_in_the_line_or_on_its_own() {
    let text = "a $x$ b\n\n$$y$$\n\n| $z$ |\n|---|\n";
    let drawn = blocks_with_images(text);
    let Block::Text { paragraph, .. } = &drawn[0] else {
        panic!("a paragraph");
    };
    assert_eq!(paragraph.text, "a \u{fffc} b");
    let style = paragraph.styles[0].2;
    assert!(style.math.is_some());
    assert_eq!(attributes_of(style), [Attribute::Formula(style.math.unwrap())]);
    assert!(matches!(&drawn[1], Block::Math { indent: 0, quote: 0, .. }));
    let Block::Table { rows, .. } = &drawn[2] else {
        panic!("a table");
    };
    assert_eq!(rows[0][0].text, "\u{fffc}");
    let source = blocks(text);
    let Block::Text { paragraph, .. } = &source[0] else {
        panic!("a paragraph");
    };
    assert_eq!(paragraph.text, "a x b");
    assert_eq!(paragraph.styles, [(2, 3, Inline { code: true, ..plain() })]);
}

#[test]
fn definitions_alerts_and_front_matter_are_set() {
    let blocks = blocks("---\ntitle: x\n---\n\n> [!NOTE]\n> text\n\nterm\n\n: definition\n");
    assert!(matches!(&blocks[0], Block::Code { code, .. } if code == "title: x"));
    let texts: Vec<&str> = blocks
        .iter()
        .filter_map(|block| match block {
            Block::Text { paragraph, .. } => Some(paragraph.text.as_str()),
            _ => None,
        })
        .collect();
    assert_eq!(texts, ["Note", "text", "term", "definition"]);
}

#[test]
fn emoji_no_font_has_are_spelled_out() {
    let missing = vec![(String::from("🎉"), String::from("tada"))];
    let text = "Hi :tada: 🚀 <script>no</script>🎉\n\n```\n🎉\n```\n\n<p>:tada: 🚀<script>no</script>\n";
    let blocks = read_blocks(text, &Vec::new(), &missing);
    let Block::Text { paragraph, .. } = &blocks[0] else {
        panic!("no paragraph");
    };
    assert_eq!(paragraph.text, "Hi :tada: 🚀 :tada:");
    assert!(matches!(&blocks[1], Block::Code { code, .. } if code == "🎉"));
    let Block::Text { paragraph, .. } = &blocks[2] else {
        panic!("no paragraph");
    };
    assert_eq!(paragraph.text.trim_end(), ":tada: 🚀");
}
