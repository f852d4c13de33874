use blink::event::{DocEvent, MdEvent, MdTag};
use blink::emoji::{put_emoji, spell_text, with_emoji, written_emoji};
use blink::export::{
    code_block_html, css_string, escape_html, is_safe_export_url, sanitize_export_url, style_at,
    url_has_scheme, CodeRun, CodeStyle,
};
use blink::github::slug_of;
use blink::html::{html_parts, strip_html, HtmlAlign, HtmlBlock, HtmlPart, HtmlStyle};
use blink::math::Formula;
use blink::page::{document_events, page_html, render_html, Options};
use blink::rewrite::{export_events, Opened, OpenHtml};
use pulldown_cmark::{LinkType, TagEnd};

fn options() -> Options {
    Options {
        title: String::from("doc"),
        base_dir: None,
        text_font: String::from("Sans"),
        monospace_font: String::from("Monospace"),
        width: 900,
        light: Vec::new(),
        dark: Vec::new(),
    }
}

fn render(text: &str) -> String {
    render_html(text, &options(), &Vec::new())
}

#[test]
fn export_strips_raw_html_and_scripts() {
    let html = render("Hello\n\n<script>alert('xss')</script>\n\n<b>raw</b> text");
    assert!(!html.contains("<script>"));
    assert!(!html.contains("alert("));
    // The inline raw <b> tag is dropped, but its text content survives.
    assert!(html.contains("raw"));
    assert!(html.contains("Hello"));
}

#[test]
fn export_neutralizes_dangerous_link_schemes() {
    let html = render("[click](javascript:alert(1))");
    assert!(!html.contains("javascript:"));
    // The link text is preserved; only the destination is emptied.
    assert!(html.contains("click"));
}

#[test]
fn export_preserves_safe_links_and_relative_paths() {
    let html = render("[web](https://example.com) and [rel](images/a.png) and [a](#sec)");
    assert!(html.contains("https://example.com"));
    assert!(html.contains("images/a.png"));
    assert!(html.contains("#sec"));
}

#[test]
fn export_title_is_derived_and_escaped() {
    let html = render_html(
        "body",
        &Options {
            title: String::from("a & b <x>.md"),
            ..options()
        },
        &Vec::new(),
    );
    assert!(html.contains("<title>a &amp; b &lt;x&gt;.md</title>"));
}

#[test]
fn export_renders_footnotes() {
    let html = render("Text[^note] and[^note].\n\n[^note]: The note.");
    assert!(html.contains(
        "<sup class=\"footnote-reference\" id=\"fnref:note\"><a href=\"#fn:note\">1</a></sup> and<sup class=\"footnote-reference\"><a href=\"#fn:note\">1</a></sup>"
    ));
    assert!(html.contains("<div class=\"footnote-definition\" id=\"fn:note\">"));
    assert!(html.contains("The note.</p>\n<a href=\"#fnref:note\" class=\"footnote-backref\">"));
}

#[test]
fn export_colours_code_for_both_styles() {
    let style = |red| CodeStyle {
        color: Some((red, 0, 0)),
        bold: false,
        italic: false,
    };
    let html = render_html(
        "```rust\nfn main() {}\n```",
        &Options {
            light: vec![vec![CodeRun {
                range: 0..2,
                style: style(0x11),
            }]],
            dark: vec![vec![CodeRun {
                range: 0..2,
                style: style(0x22),
            }]],
            ..options()
        },
        &Vec::new(),
    );
    assert!(html.contains(
        "<pre><code class=\"language-rust\"><span style=\"--light:#110000;--dark:#220000;\">fn</span> main() {}</code></pre>"
    ));
}

#[test]
fn export_fonts_cannot_end_the_stylesheet() {
    assert_eq!(css_string("A\"</style>"), "\"A\\22 \\3c /style\\3e \"");
}

#[test]
fn url_scheme_detection() {
    assert!(url_has_scheme("javascript:x"));
    assert!(url_has_scheme("data:text"));
    assert!(url_has_scheme("HTTP://x"));
    assert!(!url_has_scheme("images/a.png"));
    assert!(!url_has_scheme("#anchor"));
    assert!(!url_has_scheme("./rel"));
    assert!(!url_has_scheme("page.html?q=1"));
}

#[test]
fn schemes_start_with_a_letter_and_end_with_a_colon() {
    assert!(!url_has_scheme(""));
    assert!(!url_has_scheme(":x"));
    assert!(!url_has_scheme("1a:x"));
    assert!(url_has_scheme("a+b-c.1:x"));
    assert!(!url_has_scheme("é:x"));
    assert!(!url_has_scheme("plain"));
}

#[test]
fn only_web_mail_and_relative_addresses_are_exported() {
    assert!(is_safe_export_url(""));
    assert!(is_safe_export_url("  HTTPS://example.com "));
    assert!(is_safe_export_url("mailto:a@b"));
    assert!(!is_safe_export_url(" data:text/html,x"));
    assert!(!is_safe_export_url("FILE:///etc/passwd"));
    assert_eq!(sanitize_export_url("a/b"), "a/b");
    assert_eq!(sanitize_export_url("vbscript:x"), "");
}

#[test]
fn text_is_escaped_for_elements_and_attributes() {
    assert_eq!(escape_html("a&<b>\"'"), "a&amp;&lt;b&gt;&quot;'");
    assert_eq!(escape_html("&lt;"), "&amp;lt;");
}

#[test]
fn code_is_cut_where_a_style_starts_or_ends() {
    let plain = |red: u8| CodeStyle {
        color: Some((red, 2, 0xab)),
        bold: true,
        italic: true,
    };
    let light = vec![
        CodeRun {
            range: 1..3,
            style: plain(1),
        },
        CodeRun {
            // Ends inside a character, where nothing is cut.
            range: 3..5,
            style: CodeStyle {
                color: None,
                bold: false,
                italic: false,
            },
        },
    ];
    let dark = vec![];
    assert_eq!(style_at(&light, 0), None);
    assert_eq!(style_at(&light, 2), Some(plain(1)));
    assert_eq!(style_at(&light, 5), None);
    assert_eq!(
        code_block_html("a<é>", "", &light, &dark),
        "<pre><code>a<span style=\"--light:#0102ab;font-weight:bold;font-style:italic;\">&lt;é&gt;</span></code></pre>\n"
    );
    assert_eq!(
        code_block_html("", "  a\"b c", &dark, &dark),
        "<pre><code class=\"language-a&quot;b\"></code></pre>\n"
    );
}

fn shown(chunk: &str) -> Vec<HtmlPart<String>> {
    html_parts(chunk)
}

fn text(text: &str) -> HtmlPart<String> {
    HtmlPart::Text(String::from(text))
}

#[test]
fn raw_html_is_read_as_text_styles_and_blocks() {
    assert_eq!(
        shown("<div align=\"center\" onclick=\"x()\">\n  <b>Bold <i>both</b> italic</i><br>\n  next\n</div>\n"),
        vec![
            HtmlPart::BlockStart(HtmlBlock {
                align: Some(HtmlAlign::Center),
                paragraph: false
            }),
            HtmlPart::StyleStart(HtmlStyle::Bold),
            text("Bold "),
            HtmlPart::StyleStart(HtmlStyle::Italic),
            text("both"),
            HtmlPart::StyleEnd(HtmlStyle::Bold),
            text(" italic"),
            HtmlPart::StyleEnd(HtmlStyle::Italic),
            text("\n"),
            text("next"),
            HtmlPart::BlockEnd { paragraph: false },
        ]
    );
    assert_eq!(
        shown("<DETAILS title='an open door' OPEN><summary>x</summary></details>"),
        vec![
            HtmlPart::DetailsStart { open: true },
            HtmlPart::SummaryStart,
            text("x"),
            HtmlPart::SummaryEnd,
            HtmlPart::DetailsEnd,
        ]
    );
    assert_eq!(
        shown("<details title='an open door'>"),
        vec![HtmlPart::DetailsStart { open: false }]
    );
    assert_eq!(
        shown("a<!-- <b> --><style>p { }</style><STYLE>x</Style >b <p align=right>"),
        vec![
            text("a"),
            text("b"),
            HtmlPart::BlockStart(HtmlBlock {
                align: Some(HtmlAlign::Right),
                paragraph: true
            }),
        ]
    );
    assert_eq!(shown("<script>never ends"), vec![]);
    assert_eq!(shown("a <b"), vec![text("a <b")]);
}

#[test]
fn export_renders_github_markdown() {
    let html = render(
        "## Intro\n\n- [x] done, see https://example.com.\n\n> [!TIP]\n> Hint\n\n[back](#intro)\n",
    );
    assert!(html.contains("<h2 id=\"intro\">"));
    assert!(html.contains("<a href=\"https://example.com\">https://example.com</a>."));
    assert!(html.contains("checked=\"\""));
    assert!(html.contains("class=\"markdown-alert-tip\""));
    assert!(html.contains("<strong>Tip</strong>"));
    assert!(html.contains("href=\"#intro\""));
}

/// A formula drawn as a single line, if the parser of math takes it.
fn drawn(latex: &str) -> Option<String> {
    ratex_parser::parse(latex).ok()?;
    let formula = Formula {
        top: String::from("-0.7000"),
        width: String::from("1.0000"),
        height: String::from("0.7000"),
        drop: String::from("-0.0000"),
        shapes: Vec::new(),
    };
    Some(formula.svg(latex))
}

fn math_sources(text: &str) -> Vec<Option<String>> {
    document_events(text)
        .iter()
        .map(|event| match event {
            MdEvent::InlineMath(latex) | MdEvent::DisplayMath(latex) => drawn(latex),
            _ => None,
        })
        .collect()
}

#[test]
fn export_draws_math() {
    let text = "Inline $x^2$ and\n\n$$\n\\frac{a}{b}\n$$\n\nnot $\\nope$.\n";
    let html = render_html(text, &options(), &math_sources(text));
    assert!(
        html.contains("<p>Inline <svg xmlns=\"http://www.w3.org/2000/svg\" class=\"math\"")
    );
    assert!(html.contains("<p><span class=\"math-display\"><svg"));
    assert!(html.contains("aria-label=\"\n\\frac{a}{b}\n\""));
    assert!(html.contains("not <code>\\nope</code>."));
}

#[test]
fn export_keeps_the_text_and_styles_of_raw_html() {
    let html = render(
        "<div align=\"center\" onclick=\"x()\">\n  <b>Bold <i>both</b> italic</i><br>\n  next\n</div>\n\nA <sup>b</sup> <mark>c\n\n<img src=\"https://example.com/a.png\" alt=\"A\" width=\"40px\">\n",
    );
    assert!(html.contains(
        "<div class=\"align-center\"><strong>Bold <em>both</em></strong><em> italic</em><br>\nnext</div>"
    ));
    assert!(html.contains("<p>A <sup>b</sup> <mark>c</mark></p>"));
    assert!(html.contains("<img src=\"https://example.com/a.png\" alt=\"A\" width=\"40\" />"));
    assert!(!html.contains("onclick"));
    // A paragraph left open ends with the HTML block, a block left open with the document,
    // and a block in a paragraph is not written.
    let html = render("<p>\nOne\n\nTwo\n");
    assert!(html.contains("<div>One\n</div>\n<p>Two</p>"));
    let html = render("<center>\n<img src=\"https://example.com/a.png\">\n\nText <div>x</div>\n");
    assert!(html.contains("<div class=\"align-center\">"));
    assert!(html.contains("<p>Text x</p>\n</div>"));
    // A `<div>` holds the Markdown blocks up to its end, but not past the end of a quote,
    // and ends a `<details>` element opened in it.
    let html = render("<div align=\"center\">\n\n# Title\n\n</div>\n");
    assert!(html.contains("<div class=\"align-center\">\n<h1 id=\"title\">Title</h1>\n</div>"));
    let html = render("> <div>\n>\n> In\n\n</div>\n\n<div><details>\n\nx\n\n</div>\n");
    assert!(html.contains("<p>In</p>\n</div>\n</blockquote>"));
    assert!(html.contains("<p>x</p>\n</details></div>"));
    assert_eq!(html.matches("<div").count(), html.matches("</div>").count());
}

#[test]
fn headings_are_named_as_links_point_at_them() {
    let html = render("# Hello, World!\n\n## `Code` _and_ more\n\n# hello world\n\n# ?\n");
    assert!(html.contains("<h1 id=\"hello-world\">Hello, World!</h1>"));
    assert!(html.contains("<h2 id=\"code-and-more\">"));
    assert!(html.contains("<h1 id=\"hello-world-1\">hello world</h1>"));
    assert!(html.contains("<h1>?</h1>"));
    assert_eq!(slug_of("a b_c-d.e"), "a-b_c-de");
}

#[test]
fn addresses_in_the_text_are_links() {
    let html = render("(see www.example.com/a_b(c)) and <https://b.org>, `http://c.org`, ahttp://d.org");
    assert!(html.contains(
        "(see <a href=\"http://www.example.com/a_b(c)\">www.example.com/a_b(c)</a>) and"
    ));
    assert!(html.contains("<a href=\"https://b.org\">https://b.org</a>,"));
    assert!(html.contains("<code>http://c.org</code>"));
    assert!(html.contains("ahttp://d.org"));
    assert!(!html.contains("href=\"http://d.org"));
    let html = render("[text https://a.org](https://b.org) https://");
    assert_eq!(html.matches("<a ").count(), 1);
    assert!(html.contains("</a> https://</p>"));
}

#[test]
fn front_matter_is_code_and_wiki_links_lead_to_files() {
    let html = render("---\ntitle: x\n---\n\n[[Page]]\n\nTerm\n: What it is\n");
    assert!(html.contains("<pre><code>title: x</code></pre>"));
    assert!(html.contains("<a href=\"Page.md\">Page</a>"));
    assert!(html.contains("<dt>Term</dt>"));
}

#[test]
fn images_of_raw_html_are_images() {
    let text = "<p>A <img src='in.png' alt=\"x\" width=\"50%\"> b<!-- <img src=\"no.png\"> --></p>\n";
    let kinds: Vec<String> = document_events(text)
        .iter()
        .map(|event| match event {
            MdEvent::Start(MdTag::Image { dest_url, width, .. }) => {
                format!("image {dest_url} {width:?}")
            }
            MdEvent::Html(html) => format!("html {html}"),
            MdEvent::Text(text) => format!("text {text}"),
            _ => String::from("-"),
        })
        .collect();
    assert_eq!(
        kinds,
        [
            "-",
            "html <p>A ",
            "image in.png None",
            "text x",
            "-",
            "html  b<!-- <img src=\"no.png\"> --></p>\n",
            "-",
        ]
    );
}

#[test]
fn export_keeps_details_and_emoji() {
    let html = render(
        "<details open onclick=\"x()\"><summary>More <b>info</b></summary>\n\nHidden :tada:\n\n</details>\n",
    );
    assert!(html.contains("<details open><summary>More <strong>info</strong></summary>"));
    assert!(html.contains("<p>Hidden 🎉</p>"));
    assert!(html.contains("</details>"));
    assert!(!html.contains("onclick"));
}

fn image(url: &str, width: Option<i32>) -> DocEvent {
    MdEvent::Start(MdTag::Image {
        link_type: LinkType::Inline,
        dest_url: String::from(url),
        title: String::new(),
        id: String::new(),
        width,
    })
}

#[test]
fn images_are_embedded_linked_or_left_as_their_text() {
    let events = document_events("![inside](pixel.gif) ![outside](../outside.gif)");
    let sources: Vec<Option<String>> = events
        .iter()
        .map(|event| match event {
            MdEvent::Start(MdTag::Image { dest_url, .. }) if dest_url == "pixel.gif" => {
                Some(String::from("data:image/gif;base64,AAAA"))
            }
            _ => None,
        })
        .collect();
    let html = render_html(
        "![inside](pixel.gif) ![outside](../outside.gif)",
        &options(),
        &sources,
    );
    assert!(html.contains("src=\"data:image/gif;base64,AAAA\""));
    assert!(!html.contains("outside.gif"));
    assert!(html.contains("outside"));

    let events = vec![
        image("https://example.com/a.png", Some(40)),
        MdEvent::Text(String::from("A<")),
        MdEvent::SoftBreak,
        MdEvent::End(TagEnd::Image),
    ];
    assert_eq!(
        export_events(&events, &Vec::new(), &Vec::new(), &Vec::new()),
        vec![MdEvent::InlineHtml(String::from(
            "<img src=\"https://example.com/a.png\" alt=\"A&lt;\" width=\"40\" />"
        ))]
    );
}

#[test]
fn math_is_drawn_or_left_out() {
    let events = vec![
        MdEvent::InlineMath(String::from("x")),
        MdEvent::DisplayMath(String::from("y")),
        MdEvent::InlineMath(String::from("z")),
    ];
    let sources = vec![Some(String::from("<svg/>")), Some(String::from("<svg/>")), None];
    assert_eq!(
        export_events(&events, &sources, &Vec::new(), &Vec::new()),
        vec![
            MdEvent::InlineHtml(String::from("<svg/>")),
            MdEvent::InlineHtml(String::from("<span class=\"math-display\"><svg/></span>")),
        ]
    );
}

#[test]
fn tables_scroll_in_a_box_of_their_own() {
    let html = render("| a |\n|---|\n| 1 |\n");
    assert!(html.contains("<div class=\"table\">\n<table>"));
    assert!(html.contains("</table>\n</div>\n"));
}

#[test]
fn the_page_takes_its_fonts_and_width_from_the_options() {
    let html = page_html(
        &Options {
            width: 700,
            ..options()
        },
        "<p>x</p>\n",
    );
    assert!(html.starts_with("<!DOCTYPE html>\n<html>\n<head>\n"));
    assert!(html.contains("font-family: \"Sans\", sans-serif;"));
    assert!(html.contains("max-width: 700px;"));
    assert!(html.contains("font-family: \"Monospace\", monospace;"));
    assert!(html.ends_with("<main>\n<p>x</p>\n</main>\n</body>\n</html>\n"));
}

#[test]
fn open_elements_end_with_what_holds_them() {
    let mut open = OpenHtml::new();
    let item: DocEvent = MdEvent::Start(MdTag::Item);
    assert!(open.follow(&item).is_empty());
    open.open(Opened::Block { paragraph: false });
    open.open(Opened::Details);
    assert!(open.close(false, Opened::Block { paragraph: false }).is_empty());
    assert_eq!(
        open.close(true, Opened::Block { paragraph: false }),
        vec![Opened::Details, Opened::Block { paragraph: false }]
    );
    open.open(Opened::Block { paragraph: true });
    assert_eq!(
        open.close(false, Opened::Block { paragraph: true }),
        vec![Opened::Block { paragraph: true }]
    );
    open.open(Opened::Details);
    assert_eq!(open.follow(&MdEvent::End(TagEnd::Item)), vec![Opened::Details]);
    open.open(Opened::Details);
    assert_eq!(open.close_all(), vec![Opened::Details]);
}

#[test]
fn strip_html_keeps_text_and_breaks() {
    // Tags go, the text between them stays, and `<br>` becomes a break so
    // the surrounding words do not run together.
    assert_eq!(strip_html("<b>bold</b>"), "bold");
    assert_eq!(strip_html("a<br>b"), "a\nb");
    assert_eq!(strip_html("a<br />b"), "a\nb");
    assert_eq!(strip_html("<summary>Click</summary>"), "Click");
    assert_eq!(strip_html("plain"), "plain");
    // An unterminated tag is kept verbatim rather than swallowing the rest.
    assert_eq!(strip_html("a <b"), "a <b");
    // Comments go whole, including any `>` inside them.
    assert_eq!(strip_html("a<!-- x > y -->b"), "ab");
    assert_eq!(strip_html("a<!-- unterminated"), "a");
}

#[test]
fn scripts_have_no_text() {
    assert_eq!(strip_html("<script>alert(1)</script>"), "");
    assert_eq!(strip_html("a<style>b { color: red }</STYLE>c"), "ac");
    assert_eq!(strip_html("a <SCRIPT src=\"x\">b"), "a ");
    assert_eq!(strip_html("</script>a"), "a");
    // Those in the middle of a paragraph too, with all that starts in them.
    let html = render("One <script>two *three* ![f](g.png) *x</script>y* four\n");
    assert!(html.contains("<p>One y four</p>"));
    // One that does not end reaches to the end of its paragraph.
    let html = render("One <style>two\n\nthree\n");
    assert!(html.contains("<p>One </p>\n<p>three</p>"));
}

#[test]
fn shortcodes_are_emoji() {
    assert_eq!(with_emoji("a :tada: b"), "a 🎉 b");
    assert_eq!(with_emoji(":+1::rocket:"), "👍🚀");
    // Names that no emoji has stay, and a colon that ends none can start one.
    assert_eq!(with_emoji("12:30:tada: :x"), "12:30🎉 :x");
    assert_eq!(with_emoji(""), "");
    let found = |at: usize, size: usize| {
        (0..size)
            .map(|i| (i == at).then(|| String::from("E")))
            .collect::<Vec<Option<String>>>()
    };
    assert_eq!(put_emoji("a:b:c", &found(1, 5)), "aEc");
    assert_eq!(put_emoji("a:b:c", &found(3, 5)), "a:b:c");
    assert_eq!(put_emoji("a:b:c", &found(0, 5)), "a:b:c");
    // Code keeps its text, and a heading the name its shortcode gives it.
    let html = render("# Hi :tada:\n\n`:tada:`\n\n```\n:tada:\n```\n\n<p>:tada:</p>\n");
    assert!(html.contains("<h1 id=\"hi-tada\">Hi 🎉</h1>"));
    assert!(html.contains("<code>:tada:</code>"));
    assert_eq!(html.matches(":tada:").count(), 2);
    assert_eq!(html.matches('🎉').count(), 2);
}

#[test]
fn missing_emoji_show_as_their_shortcodes() {
    let pair = |emoji: &str, code: &str| (String::from(emoji), String::from(code));
    assert_eq!(
        written_emoji("a 🎉 1 👩‍🚀é"),
        vec![pair("🎉", "tada"), pair("👩‍🚀", "woman_astronaut")]
    );
    assert!(written_emoji("plain \u{2014} text").is_empty());
    let missing = vec![pair("🎉", "tada")];
    assert_eq!(spell_text("a 🎉🚀🎉", &missing), "a :tada:🚀:tada:");
    assert_eq!(spell_text("a 🎉", &Vec::new()), "a 🎉");
}
