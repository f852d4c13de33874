//! What an exported page can hold: no tag but those the export writes, and no link but a safe
//! one.

use crate::event::{EventView, MdEvent, MdTag};
use crate::export::{escaped, is_safe_url, CodeRun};
use crate::html::{HtmlPart, HtmlStyle, PartView};
use crate::rewrite::{
    closed_past, end_tags_of, exported, page_events, source_at, style_ends, style_starts, ExportView,
    Opened, RawView,
};
use crate::text::stands_at;
use pulldown_cmark::TagEnd;
use vstd::prelude::*;

verus! {

/// Whether `t` is a tag the export writes, or the start of one up to its first attribute
/// value.
pub open spec fn is_tag(t: Seq<char>) -> bool {
    ||| t == "<br>"@
    ||| t == "<p>"@
    ||| t == "</p>"@
    ||| t == "<details open>"@
    ||| t == "<details>"@
    ||| t == "</details>"@
    ||| t == "<summary>"@
    ||| t == "</summary>"@
    ||| t == "<div>"@
    ||| t == "<div class=\"align-center\">"@
    ||| t == "<div class=\"align-right\">"@
    ||| t == "<div class=\"table\">"@
    ||| t == "<div class=\"footnote-definition\" id=\""@
    ||| t == "</div>"@
    ||| t == "<img src=\""@
    ||| t == "<pre>"@
    ||| t == "</pre>"@
    ||| t == "<code class=\"language-"@
    ||| t == "<span style=\""@
    ||| t == "<span class=\"math-display\">"@
    ||| t == "</span>"@
    ||| t == "<sup class=\"footnote-reference\""@
    ||| t == "<sup class=\"footnote-definition-label\">"@
    ||| t == "<a href=\"#"@
    ||| t == "</a>"@
    ||| t == "<strong>"@
    ||| t == "</strong>"@
    ||| t == "<em>"@
    ||| t == "</em>"@
    ||| t == "<del>"@
    ||| t == "</del>"@
    ||| t == "<u>"@
    ||| t == "</u>"@
    ||| t == "<code>"@
    ||| t == "</code>"@
    ||| t == "<kbd>"@
    ||| t == "</kbd>"@
    ||| t == "<sup>"@
    ||| t == "</sup>"@
    ||| t == "<sub>"@
    ||| t == "</sub>"@
    ||| t == "<mark>"@
    ||| t == "</mark>"@
}

/// Whether every `<` of `html` starts a tag the export writes.
pub open spec fn only_known_tags(html: Seq<char>) -> bool {
    forall|i: int| 0 <= i < html.len() && #[trigger] html[i] == '<' ==> starts_tag(html, i)
}

/// Whether a tag the export writes starts at `i`.
pub open spec fn starts_tag(html: Seq<char>, i: int) -> bool {
    exists|t: Seq<char>| is_tag(t) && #[trigger] stands_at(html, i, t)
}

/// Two pieces that hold only known tags hold only known tags together.
proof fn known_tags_join(a: Seq<char>, b: Seq<char>)
    requires
        only_known_tags(a),
        only_known_tags(b),
    ensures
        only_known_tags(a + b),
{
    let all = a + b;
    assert forall|i: int| 0 <= i < all.len() && #[trigger] all[i] == '<' implies starts_tag(
        all,
        i,
    ) by {
        if i < a.len() {
            assert(a[i] == '<');
            assert(starts_tag(a, i));
            let t = choose|t: Seq<char>| is_tag(t) && #[trigger] stands_at(a, i, t);
            assert(all.subrange(i, i + t.len()) =~= a.subrange(i, i + t.len()));
            assert(stands_at(all, i, t));
        } else {
            let j = i - a.len();
            assert(b[j] == '<');
            assert(starts_tag(b, j));
            let t = choose|t: Seq<char>| is_tag(t) && #[trigger] stands_at(b, j, t);
            assert(all.subrange(i, i + t.len()) =~= b.subrange(j, j + t.len()));
            assert(stands_at(all, i, t));
        }
    }
}

/// What holds no `<` holds only known tags.
proof fn text_has_no_tags(text: Seq<char>)
    requires
        !text.contains('<'),
    ensures
        only_known_tags(text),
{
    assert forall|i: int| 0 <= i < text.len() && #[trigger] text[i] == '<' implies starts_tag(
        text,
        i,
    ) by {
        assert(text.contains(text[i]));
    }
}

/// The fixed pieces of HTML the export writes hold only known tags.
proof fn pieces_are_known()
    ensures
        only_known_tags("<br>\n"@),
        only_known_tags("<p>"@),
        only_known_tags("</p>"@),
        only_known_tags("<details open>"@),
        only_known_tags("<details>"@),
        only_known_tags("</details>"@),
        only_known_tags("<summary>"@),
        only_known_tags("</summary>"@),
        only_known_tags("<div>"@),
        only_known_tags("<div class=\"align-center\">"@),
        only_known_tags("<div class=\"align-right\">"@),
        only_known_tags("<div class=\"table\">\n"@),
        only_known_tags("</div>\n"@),
        only_known_tags("</div>"@),
        only_known_tags("<img src=\""@),
        only_known_tags("\" alt=\""@),
        only_known_tags("\" width=\""@),
        only_known_tags("\" />"@),
        only_known_tags("<pre><code>"@),
        only_known_tags("<pre><code class=\"language-"@),
        only_known_tags("\">"@),
        only_known_tags("</code></pre>\n"@),
        only_known_tags("<span style=\""@),
        only_known_tags("</span>"@),
        only_known_tags("<span class=\"math-display\">"@),
        only_known_tags("<sup class=\"footnote-reference\""@),
        only_known_tags(" id=\""@),
        only_known_tags("\""@),
        only_known_tags("><a href=\"#"@),
        only_known_tags("</a></sup>"@),
        only_known_tags("<div class=\"footnote-definition\" id=\""@),
        only_known_tags("\"><sup class=\"footnote-definition-label\">"@),
        only_known_tags("</sup>\n"@),
        only_known_tags("<a href=\"#"@),
        only_known_tags("\" class=\"footnote-backref\">\u{21a9}</a></div>\n"@),
        only_known_tags("\n"@),
{
    assert(only_known_tags("<br>\n"@)) by {
        reveal_strlit("<br>\n");
        reveal_strlit("<br>");
        assert("<br>\n"@.subrange(0, 0int + "<br>"@.len()) =~= "<br>"@);
        assert(is_tag("<br>"@) && stands_at("<br>\n"@, 0, "<br>"@));
    }
    assert(only_known_tags("<p>"@)) by {
        reveal_strlit("<p>");
        assert("<p>"@.subrange(0, 0int + "<p>"@.len()) =~= "<p>"@);
        assert(is_tag("<p>"@) && stands_at("<p>"@, 0, "<p>"@));
    }
    assert(only_known_tags("</p>"@)) by {
        reveal_strlit("</p>");
        assert("</p>"@.subrange(0, 0int + "</p>"@.len()) =~= "</p>"@);
        assert(is_tag("</p>"@) && stands_at("</p>"@, 0, "</p>"@));
    }
    assert(only_known_tags("<details open>"@)) by {
        reveal_strlit("<details open>");
        assert("<details open>"@.subrange(0, 0int + "<details open>"@.len()) =~= "<details open>"@);
        assert(is_tag("<details open>"@) && stands_at("<details open>"@, 0, "<details open>"@));
    }
    assert(only_known_tags("<details>"@)) by {
        reveal_strlit("<details>");
        assert("<details>"@.subrange(0, 0int + "<details>"@.len()) =~= "<details>"@);
        assert(is_tag("<details>"@) && stands_at("<details>"@, 0, "<details>"@));
    }
    assert(only_known_tags("</details>"@)) by {
        reveal_strlit("</details>");
        assert("</details>"@.subrange(0, 0int + "</details>"@.len()) =~= "</details>"@);
        assert(is_tag("</details>"@) && stands_at("</details>"@, 0, "</details>"@));
    }
    assert(only_known_tags("<summary>"@)) by {
        reveal_strlit("<summary>");
        assert("<summary>"@.subrange(0, 0int + "<summary>"@.len()) =~= "<summary>"@);
        assert(is_tag("<summary>"@) && stands_at("<summary>"@, 0, "<summary>"@));
    }
    assert(only_known_tags("</summary>"@)) by {
        reveal_strlit("</summary>");
        assert("</summary>"@.subrange(0, 0int + "</summary>"@.len()) =~= "</summary>"@);
        assert(is_tag("</summary>"@) && stands_at("</summary>"@, 0, "</summary>"@));
    }
    assert(only_known_tags("<div>"@)) by {
        reveal_strlit("<div>");
        assert("<div>"@.subrange(0, 0int + "<div>"@.len()) =~= "<div>"@);
        assert(is_tag("<div>"@) && stands_at("<div>"@, 0, "<div>"@));
    }
    assert(only_known_tags("<div class=\"align-center\">"@)) by {
        reveal_strlit("<div class=\"align-center\">");
        assert("<div class=\"align-center\">"@.subrange(0, 0int + "<div class=\"align-center\">"@.len()) =~= "<div class=\"align-center\">"@);
        assert(is_tag("<div class=\"align-center\">"@) && stands_at("<div class=\"align-center\">"@, 0, "<div class=\"align-center\">"@));
    }
    assert(only_known_tags("<div class=\"align-right\">"@)) by {
        reveal_strlit("<div class=\"align-right\">");
        assert("<div class=\"align-right\">"@.subrange(0, 0int + "<div class=\"align-right\">"@.len()) =~= "<div class=\"align-right\">"@);
        assert(is_tag("<div class=\"align-right\">"@) && stands_at("<div class=\"align-right\">"@, 0, "<div class=\"align-right\">"@));
    }
    assert(only_known_tags("<div class=\"table\">\n"@)) by {
        reveal_strlit("<div class=\"table\">\n");
        reveal_strlit("<div class=\"table\">");
        assert("<div class=\"table\">\n"@.subrange(0, 0int + "<div class=\"table\">"@.len()) =~= "<div class=\"table\">"@);
        assert(is_tag("<div class=\"table\">"@) && stands_at("<div class=\"table\">\n"@, 0, "<div class=\"table\">"@));
    }
    assert(only_known_tags("</div>\n"@)) by {
        reveal_strlit("</div>\n");
        reveal_strlit("</div>");
        assert("</div>\n"@.subrange(0, 0int + "</div>"@.len()) =~= "</div>"@);
        assert(is_tag("</div>"@) && stands_at("</div>\n"@, 0, "</div>"@));
    }
    assert(only_known_tags("</div>"@)) by {
        reveal_strlit("</div>");
        assert("</div>"@.subrange(0, 0int + "</div>"@.len()) =~= "</div>"@);
        assert(is_tag("</div>"@) && stands_at("</div>"@, 0, "</div>"@));
    }
    assert(only_known_tags("<img src=\""@)) by {
        reveal_strlit("<img src=\"");
        assert("<img src=\""@.subrange(0, 0int + "<img src=\""@.len()) =~= "<img src=\""@);
        assert(is_tag("<img src=\""@) && stands_at("<img src=\""@, 0, "<img src=\""@));
    }
    assert(only_known_tags("\" alt=\""@)) by {
        reveal_strlit("\" alt=\"");
    }
    assert(only_known_tags("\" width=\""@)) by {
        reveal_strlit("\" width=\"");
    }
    assert(only_known_tags("\" />"@)) by {
        reveal_strlit("\" />");
    }
    assert(only_known_tags("<pre><code>"@)) by {
        reveal_strlit("<pre><code>");
        reveal_strlit("<pre>");
        assert("<pre><code>"@.subrange(0, 0int + "<pre>"@.len()) =~= "<pre>"@);
        assert(is_tag("<pre>"@) && stands_at("<pre><code>"@, 0, "<pre>"@));
        reveal_strlit("<code>");
        assert("<pre><code>"@.subrange(5, 5int + "<code>"@.len()) =~= "<code>"@);
        assert(is_tag("<code>"@) && stands_at("<pre><code>"@, 5, "<code>"@));
    }
    assert(only_known_tags("<pre><code class=\"language-"@)) by {
        reveal_strlit("<pre><code class=\"language-");
        reveal_strlit("<pre>");
        assert("<pre><code class=\"language-"@.subrange(0, 0int + "<pre>"@.len()) =~= "<pre>"@);
        assert(is_tag("<pre>"@) && stands_at("<pre><code class=\"language-"@, 0, "<pre>"@));
        reveal_strlit("<code class=\"language-");
        assert("<pre><code class=\"language-"@.subrange(5, 5int + "<code class=\"language-"@.len()) =~= "<code class=\"language-"@);
        assert(is_tag("<code class=\"language-"@) && stands_at("<pre><code class=\"language-"@, 5, "<code class=\"language-"@));
    }
    assert(only_known_tags("\">"@)) by {
        reveal_strlit("\">");
    }
    assert(only_known_tags("</code></pre>\n"@)) by {
        reveal_strlit("</code></pre>\n");
        reveal_strlit("</code>");
        assert("</code></pre>\n"@.subrange(0, 0int + "</code>"@.len()) =~= "</code>"@);
        assert(is_tag("</code>"@) && stands_at("</code></pre>\n"@, 0, "</code>"@));
        reveal_strlit("</pre>");
        assert("</code></pre>\n"@.subrange(7, 7int + "</pre>"@.len()) =~= "</pre>"@);
        assert(is_tag("</pre>"@) && stands_at("</code></pre>\n"@, 7, "</pre>"@));
    }
    assert(only_known_tags("<span style=\""@)) by {
        reveal_strlit("<span style=\"");
        assert("<span style=\""@.subrange(0, 0int + "<span style=\""@.len()) =~= "<span style=\""@);
        assert(is_tag("<span style=\""@) && stands_at("<span style=\""@, 0, "<span style=\""@));
    }
    assert(only_known_tags("</span>"@)) by {
        reveal_strlit("</span>");
        assert("</span>"@.subrange(0, 0int + "</span>"@.len()) =~= "</span>"@);
        assert(is_tag("</span>"@) && stands_at("</span>"@, 0, "</span>"@));
    }
    assert(only_known_tags("<span class=\"math-display\">"@)) by {
        reveal_strlit("<span class=\"math-display\">");
        assert("<span class=\"math-display\">"@.subrange(0, 0int + "<span class=\"math-display\">"@.len()) =~= "<span class=\"math-display\">"@);
        assert(is_tag("<span class=\"math-display\">"@) && stands_at("<span class=\"math-display\">"@, 0, "<span class=\"math-display\">"@));
    }
    assert(only_known_tags("<sup class=\"footnote-reference\""@)) by {
        reveal_strlit("<sup class=\"footnote-reference\"");
        assert("<sup class=\"footnote-reference\""@.subrange(0, 0int + "<sup class=\"footnote-reference\""@.len()) =~= "<sup class=\"footnote-reference\""@);
        assert(is_tag("<sup class=\"footnote-reference\""@) && stands_at("<sup class=\"footnote-reference\""@, 0, "<sup class=\"footnote-reference\""@));
    }
    assert(only_known_tags(" id=\""@)) by {
        reveal_strlit(" id=\"");
    }
    assert(only_known_tags("\""@)) by {
        reveal_strlit("\"");
    }
    assert(only_known_tags("><a href=\"#"@)) by {
        reveal_strlit("><a href=\"#");
        reveal_strlit("<a href=\"#");
        assert("><a href=\"#"@.subrange(1, 1int + "<a href=\"#"@.len()) =~= "<a href=\"#"@);
        assert(is_tag("<a href=\"#"@) && stands_at("><a href=\"#"@, 1, "<a href=\"#"@));
    }
    assert(only_known_tags("</a></sup>"@)) by {
        reveal_strlit("</a></sup>");
        reveal_strlit("</a>");
        assert("</a></sup>"@.subrange(0, 0int + "</a>"@.len()) =~= "</a>"@);
        assert(is_tag("</a>"@) && stands_at("</a></sup>"@, 0, "</a>"@));
        reveal_strlit("</sup>");
        assert("</a></sup>"@.subrange(4, 4int + "</sup>"@.len()) =~= "</sup>"@);
        assert(is_tag("</sup>"@) && stands_at("</a></sup>"@, 4, "</sup>"@));
    }
    assert(only_known_tags("<div class=\"footnote-definition\" id=\""@)) by {
        reveal_strlit("<div class=\"footnote-definition\" id=\"");
        assert("<div class=\"footnote-definition\" id=\""@.subrange(0, 0int + "<div class=\"footnote-definition\" id=\""@.len()) =~= "<div class=\"footnote-definition\" id=\""@);
        assert(is_tag("<div class=\"footnote-definition\" id=\""@) && stands_at("<div class=\"footnote-definition\" id=\""@, 0, "<div class=\"footnote-definition\" id=\""@));
    }
    assert(only_known_tags("\"><sup class=\"footnote-definition-label\">"@)) by {
        reveal_strlit("\"><sup class=\"footnote-definition-label\">");
        reveal_strlit("<sup class=\"footnote-definition-label\">");
        assert("\"><sup class=\"footnote-definition-label\">"@.subrange(2, 2int + "<sup class=\"footnote-definition-label\">"@.len()) =~= "<sup class=\"footnote-definition-label\">"@);
        assert(is_tag("<sup class=\"footnote-definition-label\">"@) && stands_at("\"><sup class=\"footnote-definition-label\">"@, 2, "<sup class=\"footnote-definition-label\">"@));
    }
    assert(only_known_tags("</sup>\n"@)) by {
        reveal_strlit("</sup>\n");
        reveal_strlit("</sup>");
        assert("</sup>\n"@.subrange(0, 0int + "</sup>"@.len()) =~= "</sup>"@);
        assert(is_tag("</sup>"@) && stands_at("</sup>\n"@, 0, "</sup>"@));
    }
    assert(only_known_tags("<a href=\"#"@)) by {
        reveal_strlit("<a href=\"#");
        assert("<a href=\"#"@.subrange(0, 0int + "<a href=\"#"@.len()) =~= "<a href=\"#"@);
        assert(is_tag("<a href=\"#"@) && stands_at("<a href=\"#"@, 0, "<a href=\"#"@));
    }
    assert(only_known_tags("\" class=\"footnote-backref\">\u{21a9}</a></div>\n"@)) by {
        reveal_strlit("\" class=\"footnote-backref\">\u{21a9}</a></div>\n");
        reveal_strlit("</a>");
        assert("\" class=\"footnote-backref\">\u{21a9}</a></div>\n"@.subrange(28, 28int + "</a>"@.len()) =~= "</a>"@);
        assert(is_tag("</a>"@) && stands_at("\" class=\"footnote-backref\">\u{21a9}</a></div>\n"@, 28, "</a>"@));
        reveal_strlit("</div>");
        assert("\" class=\"footnote-backref\">\u{21a9}</a></div>\n"@.subrange(32, 32int + "</div>"@.len()) =~= "</div>"@);
        assert(is_tag("</div>"@) && stands_at("\" class=\"footnote-backref\">\u{21a9}</a></div>\n"@, 32, "</div>"@));
    }
    assert(only_known_tags("\n"@)) by {
        reveal_strlit("\n");
    }
}

/// The tags of a style are known.
proof fn style_tags_are_known(style: HtmlStyle)
    ensures
        only_known_tags("<"@ + style.name() + ">"@),
        only_known_tags("</"@ + style.name() + ">"@),
{
    reveal_strlit("<");
    reveal_strlit("</");
    reveal_strlit(">");
    let start = "<"@ + style.name() + ">"@;
    let end = "</"@ + style.name() + ">"@;
    match style {
        HtmlStyle::Bold => {
            let t = "<strong>"@;
            let e = "</strong>"@;
            reveal_strlit("strong");
            reveal_strlit("<strong>");
            reveal_strlit("</strong>");
            assert(start =~= t);
            assert(end =~= e);
            assert(t.subrange(0, t.len() as int) =~= t);
            assert(e.subrange(0, e.len() as int) =~= e);
            assert(is_tag(t) && stands_at(t, 0, t));
            assert(is_tag(e) && stands_at(e, 0, e));
        },
        HtmlStyle::Italic => {
            let t = "<em>"@;
            let e = "</em>"@;
            reveal_strlit("em");
            reveal_strlit("<em>");
            reveal_strlit("</em>");
            assert(start =~= t);
            assert(end =~= e);
            assert(t.subrange(0, t.len() as int) =~= t);
            assert(e.subrange(0, e.len() as int) =~= e);
            assert(is_tag(t) && stands_at(t, 0, t));
            assert(is_tag(e) && stands_at(e, 0, e));
        },
        HtmlStyle::Strikethrough => {
            let t = "<del>"@;
            let e = "</del>"@;
            reveal_strlit("del");
            reveal_strlit("<del>");
            reveal_strlit("</del>");
            assert(start =~= t);
            assert(end =~= e);
            assert(t.subrange(0, t.len() as int) =~= t);
            assert(e.subrange(0, e.len() as int) =~= e);
            assert(is_tag(t) && stands_at(t, 0, t));
            assert(is_tag(e) && stands_at(e, 0, e));
        },
        HtmlStyle::Underline => {
            let t = "<u>"@;
            let e = "</u>"@;
            reveal_strlit("u");
            reveal_strlit("<u>");
            reveal_strlit("</u>");
            assert(start =~= t);
            assert(end =~= e);
            assert(t.subrange(0, t.len() as int) =~= t);
            assert(e.subrange(0, e.len() as int) =~= e);
            assert(is_tag(t) && stands_at(t, 0, t));
            assert(is_tag(e) && stands_at(e, 0, e));
        },
        HtmlStyle::Code => {
            let t = "<code>"@;
            let e = "</code>"@;
            reveal_strlit("code");
            reveal_strlit("<code>");
            reveal_strlit("</code>");
            assert(start =~= t);
            assert(end =~= e);
            assert(t.subrange(0, t.len() as int) =~= t);
            assert(e.subrange(0, e.len() as int) =~= e);
            assert(is_tag(t) && stands_at(t, 0, t));
            assert(is_tag(e) && stands_at(e, 0, e));
        },
        HtmlStyle::Keyboard => {
            let t = "<kbd>"@;
            let e = "</kbd>"@;
            reveal_strlit("kbd");
            reveal_strlit("<kbd>");
            reveal_strlit("</kbd>");
            assert(start =~= t);
            assert(end =~= e);
            assert(t.subrange(0, t.len() as int) =~= t);
            assert(e.subrange(0, e.len() as int) =~= e);
            assert(is_tag(t) && stands_at(t, 0, t));
            assert(is_tag(e) && stands_at(e, 0, e));
        },
        HtmlStyle::Superscript => {
            let t = "<sup>"@;
            let e = "</sup>"@;
            reveal_strlit("sup");
            reveal_strlit("<sup>");
            reveal_strlit("</sup>");
            assert(start =~= t);
            assert(end =~= e);
            assert(t.subrange(0, t.len() as int) =~= t);
            assert(e.subrange(0, e.len() as int) =~= e);
            assert(is_tag(t) && stands_at(t, 0, t));
            assert(is_tag(e) && stands_at(e, 0, e));
        },
        HtmlStyle::Subscript => {
            let t = "<sub>"@;
            let e = "</sub>"@;
            reveal_strlit("sub");
            reveal_strlit("<sub>");
            reveal_strlit("</sub>");
            assert(start =~= t);
            assert(end =~= e);
            assert(t.subrange(0, t.len() as int) =~= t);
            assert(e.subrange(0, e.len() as int) =~= e);
            assert(is_tag(t) && stands_at(t, 0, t));
            assert(is_tag(e) && stands_at(e, 0, e));
        },
        HtmlStyle::Mark => {
            let t = "<mark>"@;
            let e = "</mark>"@;
            reveal_strlit("mark");
            reveal_strlit("<mark>");
            reveal_strlit("</mark>");
            assert(start =~= t);
            assert(end =~= e);
            assert(t.subrange(0, t.len() as int) =~= t);
            assert(e.subrange(0, e.len() as int) =~= e);
            assert(is_tag(t) && stands_at(t, 0, t));
            assert(is_tag(e) && stands_at(e, 0, e));
        },
    }
}

/// Escaped text holds no tags, with its line breaks written as HTML or not.
proof fn escaped_is_known(text: Seq<char>)
    ensures
        only_known_tags(escaped(text)),
        only_known_tags(crate::rewrite::with_breaks(escaped(text))),
{
    crate::export::escaped_text_is_inert(text);
    text_has_no_tags(escaped(text));
    breaks_are_known(escaped(text));
}

/// Text without tags holds none but line breaks once these are written as HTML.
proof fn breaks_are_known(text: Seq<char>)
    requires
        !text.contains('<'),
    ensures
        only_known_tags(crate::rewrite::with_breaks(text)),
    decreases text.len(),
{
    if text.len() > 0 {
        let rest = text.drop_last();
        assert(!rest.contains('<')) by {
            assert forall|i: int| 0 <= i < rest.len() implies rest[i] != '<' by {
                assert(text.contains(text[i]));
            }
        }
        breaks_are_known(rest);
        pieces_are_known();
        assert(text.contains(text.last()));
        assert(!seq![text.last()].contains('<'));
        text_has_no_tags(seq![text.last()]);
        known_tags_join(
            crate::rewrite::with_breaks(rest),
            if text.last() == '\n' {
                "<br>\n"@
            } else {
                seq![text.last()]
            },
        );
    }
}

/// The end tags of styles are known.
proof fn style_ends_are_known(styles: Seq<HtmlStyle>)
    ensures
        only_known_tags(style_ends(styles)),
    decreases styles.len(),
{
    if styles.len() > 0 {
        style_ends_are_known(styles.drop_last());
        style_tags_are_known(styles.last());
        known_tags_join("</"@ + styles.last().name() + ">"@, style_ends(styles.drop_last()));
    }
}

/// The start tags of styles are known.
proof fn style_starts_are_known(styles: Seq<HtmlStyle>)
    ensures
        only_known_tags(style_starts(styles)),
    decreases styles.len(),
{
    if styles.len() > 0 {
        style_starts_are_known(styles.drop_last());
        style_tags_are_known(styles.last());
        known_tags_join(style_starts(styles.drop_last()), "<"@ + styles.last().name() + ">"@);
    }
}

/// The end tags of elements are known.
proof fn end_tags_are_known(elements: Seq<Opened>)
    ensures
        only_known_tags(end_tags_of(elements)),
    decreases elements.len(),
{
    if elements.len() > 0 {
        end_tags_are_known(elements.drop_last());
        pieces_are_known();
        known_tags_join(
            end_tags_of(elements.drop_last()),
            crate::rewrite::end_tag(elements.last()),
        );
    }
}

/// A part of raw HTML adds only known tags.
proof fn part_is_known(raw: RawView, part: PartView, block: bool)
    requires
        only_known_tags(raw.html),
    ensures
        only_known_tags(raw.part(part, block).html),
{
    pieces_are_known();
    style_ends_are_known(raw.styles);
    known_tags_join(raw.html, style_ends(raw.styles));
    match part {
        HtmlPart::Text(text) => {
            escaped_is_known(text);
            known_tags_join(raw.html, crate::rewrite::with_breaks(escaped(text)));
        },
        HtmlPart::DetailsStart { open } => {
            known_tags_join(
                raw.html,
                if open {
                    "<details open>"@
                } else {
                    "<details>"@
                },
            );
        },
        HtmlPart::DetailsEnd => {
            let closed = raw.open.ended_with(true, Opened::Details);
            end_tags_are_known(closed);
            known_tags_join(raw.html + style_ends(raw.styles), end_tags_of(closed));
        },
        HtmlPart::SummaryStart => {
            known_tags_join(raw.html, "<summary>"@);
        },
        HtmlPart::SummaryEnd => {
            known_tags_join(raw.html, "</summary>"@);
        },
        HtmlPart::BlockStart(opened) => {
            known_tags_join(
                raw.html + style_ends(raw.styles),
                crate::rewrite::block_tag(opened.align),
            );
        },
        HtmlPart::BlockEnd { paragraph } => {
            let closed = raw.open.ended_with(true, Opened::Block { paragraph });
            end_tags_are_known(closed);
            known_tags_join(raw.html + style_ends(raw.styles), end_tags_of(closed));
        },
        HtmlPart::StyleStart(style) => {
            style_tags_are_known(style);
            known_tags_join(raw.html, "<"@ + style.name() + ">"@);
        },
        HtmlPart::StyleEnd(style) => {
            if let Some(index) = crate::rewrite::last_style(raw.styles, style) {
                let inner = raw.styles.skip(index);
                style_ends_are_known(inner);
                style_starts_are_known(inner.skip(1));
                known_tags_join(raw.html, style_ends(inner));
                known_tags_join(raw.html + style_ends(inner), style_starts(inner.skip(1)));
            }
        },
    }
}

/// Parts of raw HTML add only known tags.
proof fn parts_are_known(raw: RawView, parts: Seq<PartView>, block: bool)
    requires
        only_known_tags(raw.html),
    ensures
        only_known_tags(raw.parts(parts, block).html),
    decreases parts.len(),
{
    if parts.len() > 0 {
        parts_are_known(raw, parts.drop_last(), block);
        part_is_known(raw.parts(parts.drop_last(), block), parts.last(), block);
    }
}

/// Digits hold no tags.
proof fn digits_are_known(n: nat)
    ensures
        only_known_tags(crate::text::decimal(n)),
    decreases n,
{
    let text = crate::text::decimal(n);
    if n >= 10 {
        digits_are_known(n / 10);
        let last = seq![crate::text::digit(n % 10)];
        text_has_no_tags(last);
        known_tags_join(crate::text::decimal(n / 10), last);
        assert(text =~= crate::text::decimal(n / 10) + last);
    } else {
        text_has_no_tags(text);
    }
}

/// Hexadecimal digits hold no tags.
proof fn hex_digits_are_known(n: nat, width: nat)
    ensures
        only_known_tags(crate::text::hex_padded(n, width)),
    decreases width,
{
    let text = crate::text::hex_padded(n, width);
    if width > 0 {
        hex_digits_are_known(n / 16, (width - 1) as nat);
        let last = seq![crate::text::hex_digit(n % 16)];
        text_has_no_tags(last);
        known_tags_join(crate::text::hex_padded(n / 16, (width - 1) as nat), last);
        assert(text =~= crate::text::hex_padded(n / 16, (width - 1) as nat) + last);
    } else {
        text_has_no_tags(text);
    }
}

/// The declaration of a colour holds no tags.
proof fn color_is_known(name: Seq<char>, style: Option<crate::export::CodeStyle>)
    requires
        only_known_tags(name),
    ensures
        only_known_tags(crate::export::color_declaration(name, style)),
{
    reveal_strlit(":#");
    reveal_strlit(";");
    text_has_no_tags(":#"@);
    text_has_no_tags(";"@);
    text_has_no_tags(Seq::empty());
    if let Some(style) = style {
        if let Some((red, green, blue)) = style.color {
            let r = crate::text::hex_padded(red as nat, 2);
            let g = crate::text::hex_padded(green as nat, 2);
            let b = crate::text::hex_padded(blue as nat, 2);
            hex_digits_are_known(red as nat, 2);
            hex_digits_are_known(green as nat, 2);
            hex_digits_are_known(blue as nat, 2);
            known_tags_join(name, ":#"@);
            known_tags_join(name + ":#"@, r);
            known_tags_join(name + ":#"@ + r, g);
            known_tags_join(name + ":#"@ + r + g, b);
            known_tags_join(name + ":#"@ + r + g + b, ";"@);
        }
    }
}

/// A piece of code holds only known tags.
proof fn code_piece_is_known(
    code: Seq<char>,
    light: Seq<CodeRun>,
    dark: Seq<CodeRun>,
    start: int,
    end: int,
)
    ensures
        only_known_tags(crate::export::code_piece(code, light, dark, start, end)),
{
    pieces_are_known();
    let l = crate::export::style_of_byte(light, crate::export::byte_of(code, start));
    let d = crate::export::style_of_byte(dark, crate::export::byte_of(code, start));
    let style = crate::export::style_declarations(l, d);
    let text = escaped(code.subrange(start, end));
    escaped_is_known(code.subrange(start, end));
    reveal_strlit("--light");
    reveal_strlit("--dark");
    reveal_strlit("font-weight:bold;");
    reveal_strlit("font-style:italic;");
    text_has_no_tags("--light"@);
    text_has_no_tags("--dark"@);
    text_has_no_tags("font-weight:bold;"@);
    text_has_no_tags("font-style:italic;"@);
    text_has_no_tags(Seq::empty());
    color_is_known("--light"@, l);
    color_is_known("--dark"@, d);
    let cl = crate::export::color_declaration("--light"@, l);
    let cd = crate::export::color_declaration("--dark"@, d);
    let bold = match l {
        Some(style) if style.bold => "font-weight:bold;"@,
        _ => Seq::empty(),
    };
    let italic = match l {
        Some(style) if style.italic => "font-style:italic;"@,
        _ => Seq::empty(),
    };
    known_tags_join(cl, cd);
    known_tags_join(cl + cd, bold);
    known_tags_join(cl + cd + bold, italic);
    known_tags_join("<span style=\""@, style);
    known_tags_join("<span style=\""@ + style, "\">"@);
    known_tags_join("<span style=\""@ + style + "\">"@, text);
    known_tags_join("<span style=\""@ + style + "\">"@ + text, "</span>"@);
}

/// Pieces of code hold only known tags.
proof fn code_pieces_are_known(
    code: Seq<char>,
    light: Seq<CodeRun>,
    dark: Seq<CodeRun>,
    start: int,
    k: int,
)
    ensures
        only_known_tags(crate::export::code_pieces(code, light, dark, start, k)),
    decreases code.len() - k,
{
    text_has_no_tags(Seq::empty());
    if k < 0 || k > code.len() || start >= code.len() {
    } else if k == code.len() {
        code_piece_is_known(code, light, dark, start, k);
    } else if k > start && crate::export::is_cut(code, light, dark, k) {
        code_piece_is_known(code, light, dark, start, k);
        code_pieces_are_known(code, light, dark, k, k + 1);
        known_tags_join(
            crate::export::code_piece(code, light, dark, start, k),
            crate::export::code_pieces(code, light, dark, k, k + 1),
        );
    } else {
        code_pieces_are_known(code, light, dark, start, k + 1);
    }
}

/// A code block holds only known tags.
proof fn code_is_known(
    code: Seq<char>,
    info: Seq<char>,
    light: Seq<CodeRun>,
    dark: Seq<CodeRun>,
)
    ensures
        only_known_tags(crate::export::code_html(code, info, light, dark)),
{
    pieces_are_known();
    let language = crate::text::first_word_of(info);
    escaped_is_known(language);
    code_pieces_are_known(code, light, dark, 0, 0);
    known_tags_join("<pre><code class=\"language-"@, escaped(language));
    known_tags_join("<pre><code class=\"language-"@ + escaped(language), "\">"@);
    let opening = if language.len() == 0 {
        "<pre><code>"@
    } else {
        "<pre><code class=\"language-"@ + escaped(language) + "\">"@
    };
    let pieces = crate::export::code_pieces(code, light, dark, 0, 0);
    known_tags_join(opening, pieces);
    known_tags_join(opening + pieces, "</code></pre>\n"@);
}

/// Whether `html` is one of `sources`, which draw math, alone or on a line of its own.
pub open spec fn is_drawn_math(html: Seq<char>, sources: Seq<Option<String>>) -> bool {
    exists|i: int| #[trigger] is_math_of(html, source_at(sources, i))
}

/// Whether `html` is `source`, which draws math, alone or on a line of its own.
pub open spec fn is_math_of(html: Seq<char>, source: Option<Seq<char>>) -> bool {
    match source {
        Some(svg) => html == svg || html == "<span class=\"math-display\">"@ + svg + "</span>"@,
        None => false,
    }
}

/// Whether `url` is one of `sources`, which embed images.
pub open spec fn is_embedded(url: Seq<char>, sources: Seq<Option<String>>) -> bool {
    exists|i: int| #[trigger] source_at(sources, i) == Some(url)
}

/// Whether an event of a page is safe to show: HTML holds only tags the export writes, or is
/// drawn math; a link leads to the web, to a mail address or into the document; and an image
/// is on the web or embedded.
pub open spec fn is_safe_event(event: EventView, sources: Seq<Option<String>>) -> bool {
    match event {
        MdEvent::Html(html) => only_known_tags(html),
        MdEvent::InlineHtml(html) => only_known_tags(html) || is_drawn_math(html, sources),
        MdEvent::Start(MdTag::Link { dest_url, .. }) => is_safe_url(dest_url),
        MdEvent::Start(MdTag::Image { dest_url, .. }) => crate::rewrite::is_web(dest_url)
            || is_embedded(dest_url, sources),
        _ => true,
    }
}

/// Whether all events of a page are safe to show.
pub open spec fn all_safe(events: Seq<EventView>, sources: Seq<Option<String>>) -> bool {
    forall|i: int| 0 <= i < events.len() ==> is_safe_event(#[trigger] events[i], sources)
}

/// The ends of elements of raw HTML are safe to show.
proof fn end_elements_is_safe(
    export: ExportView,
    closed: Seq<Opened>,
    sources: Seq<Option<String>>,
)
    requires
        all_safe(export.events, sources),
    ensures
        all_safe(export.end_elements(closed).events, sources),
{
    pieces_are_known();
    style_ends_are_known(export.styles);
    end_tags_are_known(closed);
    known_tags_join(style_ends(export.styles), end_tags_of(closed));
    known_tags_join(style_ends(export.styles) + end_tags_of(closed), "\n"@);
}

/// What the export writes for an image with a width of its own is safe to show.
proof fn sized_tag_is_known(source: Seq<char>, width: i32, alt: Seq<char>)
    ensures
        only_known_tags(crate::rewrite::sized_tag(source, width, alt)),
{
    pieces_are_known();
    escaped_is_known(source);
    escaped_is_known(alt);
    let w = crate::text::decimal_signed(width as int);
    if width < 0 {
        text_has_no_tags(seq!['-']);
        digits_are_known((-width) as nat);
        known_tags_join(seq!['-'], crate::text::decimal((-width) as nat));
    } else {
        digits_are_known(width as nat);
    }
    let a = "<img src=\""@ + escaped(source);
    let b = a + "\" alt=\""@;
    let c = b + escaped(alt);
    let d = c + "\" width=\""@;
    known_tags_join("<img src=\""@, escaped(source));
    known_tags_join(a, "\" alt=\""@);
    known_tags_join(b, escaped(alt));
    known_tags_join(c, "\" width=\""@);
    known_tags_join(d, w);
    known_tags_join(d + w, "\" />"@);
}

/// What the export writes for footnotes is safe to show.
proof fn footnotes_are_known(name: Seq<char>, number: nat, id: Seq<char>)
    requires
        only_known_tags(id),
    ensures
        only_known_tags(" id=\""@ + escaped(crate::rewrite::reference_id_of(name)) + "\""@),
        only_known_tags(
            "<sup class=\"footnote-reference\""@ + id + "><a href=\"#"@ + escaped(
                crate::rewrite::footnote_id_of(name),
            ) + "\">"@ + crate::text::decimal(number) + "</a></sup>"@,
        ),
        only_known_tags(
            "<div class=\"footnote-definition\" id=\""@ + escaped(
                crate::rewrite::footnote_id_of(name),
            ) + "\"><sup class=\"footnote-definition-label\">"@ + crate::text::decimal(number)
                + "</sup>\n"@,
        ),
        only_known_tags(
            "<a href=\"#"@ + escaped(crate::rewrite::reference_id_of(name))
                + "\" class=\"footnote-backref\">\u{21a9}</a></div>\n"@,
        ),
{
    pieces_are_known();
    let note = escaped(crate::rewrite::footnote_id_of(name));
    let back = escaped(crate::rewrite::reference_id_of(name));
    let digits = crate::text::decimal(number);
    escaped_is_known(crate::rewrite::footnote_id_of(name));
    escaped_is_known(crate::rewrite::reference_id_of(name));
    digits_are_known(number);
    known_tags_join(" id=\""@, back);
    known_tags_join(" id=\""@ + back, "\""@);
    let a = "<sup class=\"footnote-reference\""@ + id;
    let b = a + "><a href=\"#"@;
    let c = b + note;
    let d = c + "\">"@;
    known_tags_join("<sup class=\"footnote-reference\""@, id);
    known_tags_join(a, "><a href=\"#"@);
    known_tags_join(b, note);
    known_tags_join(c, "\">"@);
    known_tags_join(d, digits);
    known_tags_join(d + digits, "</a></sup>"@);
    let e = "<div class=\"footnote-definition\" id=\""@ + note;
    let f = e + "\"><sup class=\"footnote-definition-label\">"@;
    known_tags_join("<div class=\"footnote-definition\" id=\""@, note);
    known_tags_join(e, "\"><sup class=\"footnote-definition-label\">"@);
    known_tags_join(f, digits);
    known_tags_join(f + digits, "</sup>\n"@);
    known_tags_join("<a href=\"#"@, back);
    known_tags_join(
        "<a href=\"#"@ + back,
        "\" class=\"footnote-backref\">\u{21a9}</a></div>\n"@,
    );
}

/// What the export writes for raw HTML is safe to show.
proof fn raw_html_is_safe(
    export: ExportView,
    chunk: Seq<char>,
    block: bool,
    sources: Seq<Option<String>>,
)
    requires
        all_safe(export.events, sources),
    ensures
        all_safe(export.raw_html(chunk, block).events, sources),
{
    pieces_are_known();
    let parts = crate::html::parts_of(chunk);
    let start = RawView { html: Seq::empty(), styles: export.styles, open: export.open };
    text_has_no_tags(start.html);
    parts_are_known(start, parts, block);
    let written = start.parts(parts, block);
    style_ends_are_known(written.styles);
    known_tags_join(written.html, style_ends(written.styles));
    let ended = if block {
        written.end_styles()
    } else {
        written
    };
    known_tags_join("<p>"@, ended.html);
    known_tags_join("<p>"@ + ended.html, "</p>"@);
    known_tags_join("<p>"@ + ended.html + "</p>"@, "\n"@);
    known_tags_join(ended.html, "\n"@);
}

/// What the export writes for one event is safe to show.
proof fn step_is_safe(
    export: ExportView,
    event: EventView,
    n: int,
    sources: Seq<Option<String>>,
    light: Seq<Vec<CodeRun>>,
    dark: Seq<Vec<CodeRun>>,
)
    requires
        all_safe(export.events, sources),
    ensures
        all_safe(export.step(event, source_at(sources, n), light, dark).events, sources),
{
    let source = source_at(sources, n);
    pieces_are_known();
    end_elements_is_safe(
        ExportView { open: export.open.after(event), ..export },
        export.open.ended_by(event),
        sources,
    );
    let next = export.followed(event);
    match (next.sized, next.code) {
        (Some((shown, width, alt)), _) => {
            sized_tag_is_known(shown, width, alt);
        },
        (None, Some((info, code))) => {
            code_is_known(
                crate::text::drop_end(code, '\n'),
                info,
                crate::rewrite::runs_at(light, next.code_blocks),
                crate::rewrite::runs_at(dark, next.code_blocks),
            );
        },
        (None, None) => {
            plain_is_safe(next, event, n, sources);
        },
    }
}

/// What the export writes for one event outside code blocks and images with a width of their
/// own is safe to show.
proof fn plain_is_safe(
    export: ExportView,
    event: EventView,
    n: int,
    sources: Seq<Option<String>>,
)
    requires
        all_safe(export.events, sources),
    ensures
        all_safe(export.plain(event, source_at(sources, n)).events, sources),
{
    let source = source_at(sources, n);
    pieces_are_known();
    match event {
        MdEvent::Html(chunk) => {
            raw_html_is_safe(export, chunk, true, sources);
        },
        MdEvent::InlineHtml(chunk) => {
            raw_html_is_safe(export, chunk, false, sources);
        },
        MdEvent::End(TagEnd::HtmlBlock) => {
            let paragraph = Opened::Block { paragraph: true };
            end_elements_is_safe(
                ExportView { open: export.open.without(false, paragraph), ..export },
                export.open.ended_with(false, paragraph),
                sources,
            );
        },
        MdEvent::End(_) => {
            style_ends_are_known(export.styles);
            let name = if export.footnotes.len() == 0 {
                Seq::empty()
            } else {
                export.footnotes.last()
            };
            text_has_no_tags(Seq::empty());
            footnotes_are_known(name, 0, Seq::empty());
        },
        MdEvent::InlineMath(_) => {
            if source is Some {
                assert(is_math_of(source->0, source_at(sources, n)));
            }
        },
        MdEvent::DisplayMath(_) => {
            if let Some(svg) = source {
                assert(is_math_of(
                    "<span class=\"math-display\">"@ + svg + "</span>"@,
                    source_at(sources, n),
                ));
            }
        },
        MdEvent::FootnoteReference(name) => {
            text_has_no_tags(Seq::empty());
            footnotes_are_known(name, 0, Seq::empty());
            let id = if export.referenced.contains(name) {
                Seq::empty()
            } else {
                " id=\""@ + escaped(crate::rewrite::reference_id_of(name)) + "\""@
            };
            footnotes_are_known(
                name,
                crate::rewrite::number_among(export.numbers, name) as nat,
                id,
            );
        },
        MdEvent::Start(MdTag::FootnoteDefinition(name)) => {
            text_has_no_tags(Seq::empty());
            footnotes_are_known(
                name,
                crate::rewrite::number_among(export.numbers, name) as nat,
                Seq::empty(),
            );
        },
        MdEvent::Start(MdTag::Link { dest_url, .. }) => {
            crate::export::nothing_is_safe();
        },
        _ => {},
    }
}

/// However a document is written, its page holds no tag but those the export writes itself,
/// apart from the drawings of its math, and leads nowhere but to the web, to mail addresses
/// and into itself: nothing of it runs as a script in a browser.
pub proof fn pages_are_safe(
    events: Seq<EventView>,
    sources: Seq<Option<String>>,
    light: Seq<Vec<CodeRun>>,
    dark: Seq<Vec<CodeRun>>,
)
    ensures
        all_safe(page_events(events, sources, light, dark), sources),
{
    exported_is_safe(events, sources, light, dark, events.len() as int);
    let end = exported(events, sources, light, dark, events.len() as int);
    end_elements_is_safe(
        ExportView {
            open: crate::rewrite::OpenView { open: Seq::empty(), ..end.open },
            ..end
        },
        closed_past(end.open.open, 0),
        sources,
    );
}

/// What the export has written after some events is safe to show.
proof fn exported_is_safe(
    events: Seq<EventView>,
    sources: Seq<Option<String>>,
    light: Seq<Vec<CodeRun>>,
    dark: Seq<Vec<CodeRun>>,
    n: int,
)
    ensures
        all_safe(exported(events, sources, light, dark, n).events, sources),
    decreases n,
{
    if n > 0 {
        exported_is_safe(events, sources, light, dark, n - 1);
        step_is_safe(
            exported(events, sources, light, dark, n - 1),
            events[n - 1],
            n - 1,
            sources,
            light,
            dark,
        );
    }
}

}
