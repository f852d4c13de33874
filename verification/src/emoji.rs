//! Emoji shortcodes: `:tada:` is the emoji of that name, and an emoji that no font has shows as
//! its shortcode.

use crate::event::{copy_event, opt_view, views, DocEvent, EventView, MdEvent, MdTag};
use crate::html::{html_text, strip_html};
use crate::text::{chars_of, find, find_at, has_at, same, stands_at, text_of};
use pulldown_cmark::TagEnd;
use vstd::prelude::*;
use vstd::string::*;

verus! {

/// The emoji that `emojis::get_by_shortcode` finds under a shortcode, which is written without
/// its colons.
pub uninterp spec fn emoji_of(shortcode: Seq<char>) -> Option<Seq<char>>;

/// `emojis::get_by_shortcode` is a lookup in a table that is part of the crate, so a function of
/// the shortcode alone, named [`emoji_of`].
#[verifier::external_body]
fn get_by_shortcode(shortcode: &str) -> (found: Option<String>)
    ensures
        opt_view(found) == emoji_of(shortcode@),
{
    match emojis::get_by_shortcode(shortcode) {
        Some(emoji) => Some(String::from(emoji.as_str())),
        None => None,
    }
}

/// The emoji of each character of a text: of a colon, what stands up to the next colon names;
/// of any other character, none.
pub open spec fn emoji_at(text: Seq<char>, i: int) -> Option<Seq<char>> {
    if text[i] != ':' {
        None
    } else {
        match find_at(text, i + 1, ":"@) {
            Some(end) => emoji_of(text.subrange(i + 1, end)),
            None => None,
        }
    }
}

/// Whether an emoji is one of those that are missing, which are listed with their shortcodes.
pub open spec fn is_missing(missing: Seq<(Seq<char>, Seq<char>)>, emoji: Seq<char>) -> bool {
    exists|i: int| 0 <= i < missing.len() && (#[trigger] missing[i]).0 == emoji
}

/// The emoji of the characters of a text, but for those that are missing.
pub open spec fn emoji_in(text: Seq<char>, missing: Seq<(Seq<char>, Seq<char>)>) -> Seq<
    Option<Seq<char>>,
> {
    Seq::new(
        text.len(),
        |i: int|
            match emoji_at(text, i) {
                Some(emoji) if !is_missing(missing, emoji) => Some(emoji),
                _ => None,
            },
    )
}

/// A text from `at` on, with the emoji found at its colons in place of what stands there up to
/// and with the next colon. A colon that ends a shortcode starts none.
pub open spec fn with_found(text: Seq<char>, found: Seq<Option<Seq<char>>>, at: int) -> Seq<char>
    decreases text.len() - at,
{
    if at < 0 || at >= text.len() {
        Seq::empty()
    } else {
        proof {
            crate::text::found_first(text, at + 1, ":"@);
            reveal_strlit(":");
        }
        match (found[at], find_at(text, at + 1, ":"@)) {
            (Some(emoji), Some(end)) if text[at] == ':' => emoji + with_found(text, found, end + 1),
            _ => seq![text[at]] + with_found(text, found, at + 1),
        }
    }
}

/// A text with its emoji shortcodes as emoji, but for those that are missing.
pub open spec fn emoji_text_in(text: Seq<char>, missing: Seq<(Seq<char>, Seq<char>)>) -> Seq<char> {
    with_found(text, emoji_in(text, missing), 0)
}

/// A text with its emoji shortcodes as emoji.
pub open spec fn emoji_text(text: Seq<char>) -> Seq<char> {
    emoji_text_in(text, Seq::empty())
}

/// The characters of texts that may be missing.
pub open spec fn opt_views(found: Seq<Option<String>>) -> Seq<Option<Seq<char>>> {
    found.map_values(|text: Option<String>| opt_view(text))
}

/// A text with the emoji found at its colons, one entry for each character, in place of their
/// shortcodes.
pub fn put_emoji(text: &str, found: &Vec<Option<String>>) -> (out: String)
    requires
        found@.len() == text@.len(),
    ensures
        out@ == with_found(text@, opt_views(found@), 0),
{
    let chars = chars_of(text);
    let colon = chars_of(":");
    let ghost all = opt_views(found@);
    let mut out = String::new();
    let mut at: usize = 0;
    proof {
        reveal_strlit(":");
        assert(out@ + with_found(chars@, all, 0) =~= with_found(chars@, all, 0));
    }
    while at < chars.len()
        invariant
            at <= chars@.len(),
            chars@.len() == found@.len(),
            all == opt_views(found@),
            colon@ == ":"@,
            colon@.len() == 1,
            out@ + with_found(chars@, all, at as int) == with_found(chars@, all, 0),
        decreases chars@.len() - at,
    {
        let ghost before = out@;
        proof {
            crate::text::found_first(chars@, at + 1, ":"@);
            assert(all[at as int] == opt_view(found@[at as int]));
        }
        let next = find(&chars, at + 1, &colon);
        match (&found[at], next) {
            (Some(emoji), Some(end)) if chars[at] == ':' => {
                out.append(emoji.as_str());
                proof {
                    let rest = with_found(chars@, all, end + 1);
                    assert(before + (emoji@ + rest) =~= out@ + rest);
                }
                at = end + 1;
            },
            _ => {
                out.push(chars[at]);
                proof {
                    let rest = with_found(chars@, all, at + 1);
                    assert(before + (seq![chars@[at as int]] + rest) =~= out@ + rest);
                }
                at = at + 1;
            },
        }
    }
    proof {
        assert(out@ + Seq::<char>::empty() =~= out@);
    }
    out
}

/// Whether an emoji is one of those that are missing.
fn lacks(missing: &Vec<(String, String)>, emoji: &str) -> (lacked: bool)
    ensures
        lacked == is_missing(pairs(missing@), emoji@),
{
    for i in 0..missing.len()
        invariant
            forall|j: int| 0 <= j < i ==> (#[trigger] pairs(missing@)[j]).0 != emoji@,
    {
        if same(missing[i].0.as_str(), emoji) {
            proof {
                assert(pairs(missing@)[i as int].0 == emoji@);
            }
            return true;
        }
    }
    false
}

/// The emoji of the characters of a text, but for those that are missing.
fn find_emoji(text: &str, missing: &Vec<(String, String)>) -> (found: Vec<Option<String>>)
    ensures
        opt_views(found@) == emoji_in(text@, pairs(missing@)),
{
    let chars = chars_of(text);
    let colon = chars_of(":");
    let mut found: Vec<Option<String>> = Vec::new();
    for i in 0..chars.len()
        invariant
            chars@ == text@,
            colon@ == ":"@,
            found@.len() == i,
            forall|j: int|
                0 <= j < i ==> opt_view(#[trigger] found@[j]) == emoji_in(
                    chars@,
                    pairs(missing@),
                )[j],
    {
        let mut emoji: Option<String> = None;
        if chars[i] == ':' {
            proof {
                crate::text::found_first(chars@, i + 1, ":"@);
            }
            if let Some(end) = find(&chars, i + 1, &colon) {
                if let Some(named) = get_by_shortcode(text_of(&chars, i + 1, end).as_str()) {
                    if !lacks(missing, named.as_str()) {
                        emoji = Some(named);
                    }
                }
            }
        }
        found.push(emoji);
    }
    proof {
        assert(opt_views(found@) =~= emoji_in(text@, pairs(missing@)));
    }
    found
}

/// A text with its emoji shortcodes as emoji, but for those that are missing.
pub fn with_emoji_in(text: &str, missing: &Vec<(String, String)>) -> (out: String)
    ensures
        out@ == emoji_text_in(text@, pairs(missing@)),
{
    let found = find_emoji(text, missing);
    proof {
        assert(opt_views(found@).len() == found@.len());
    }
    put_emoji(text, &found)
}

/// A text with its emoji shortcodes as emoji.
pub fn with_emoji(text: &str) -> (out: String)
    ensures
        out@ == emoji_text(text@),
{
    let missing: Vec<(String, String)> = Vec::new();
    proof {
        assert(pairs(missing@) =~= Seq::empty());
    }
    with_emoji_in(text, &missing)
}

/// Text without a colon has no shortcodes.
pub proof fn text_without_colons_stays(text: Seq<char>, found: Seq<Option<Seq<char>>>, at: int)
    requires
        0 <= at <= text.len(),
        !text.contains(':'),
    ensures
        with_found(text, found, at) == text.skip(at),
        at == 0 ==> with_found(text, found, at) == text,
    decreases text.len() - at,
{
    if at < text.len() {
        text_without_colons_stays(text, found, at + 1);
        assert(text[at] != ':');
        assert(seq![text[at]] + text.skip(at + 1) =~= text.skip(at));
    } else {
        assert(text.skip(at) =~= Seq::<char>::empty());
    }
    assert(text.skip(0) =~= text);
}

/// The first `n` events with emoji in their text, but for those that are missing and the text of
/// code blocks, and whether a code block is open.
pub open spec fn emojied(
    events: Seq<EventView>,
    missing: Seq<(Seq<char>, Seq<char>)>,
    n: int,
) -> (Seq<EventView>, bool)
    decreases n,
{
    if n <= 0 {
        (Seq::empty(), false)
    } else {
        let (before, code) = emojied(events, missing, n - 1);
        let event = events[n - 1];
        match event {
            MdEvent::Text(text) if !code => (
                before.push(MdEvent::Text(emoji_text_in(text, missing))),
                code,
            ),
            MdEvent::Start(MdTag::CodeBlock(_)) => (before.push(event), true),
            MdEvent::End(TagEnd::CodeBlock) => (before.push(event), false),
            _ => (before.push(event), code),
        }
    }
}

/// Events with emoji in their text, but for those that are missing and the text of code blocks.
pub fn put_all_emoji(events: &Vec<DocEvent>, missing: &Vec<(String, String)>) -> (list: Vec<
    DocEvent,
>)
    ensures
        views(list@) == emojied(views(events@), pairs(missing@), events@.len() as int).0,
{
    let mut list: Vec<DocEvent> = Vec::new();
    let mut code = false;
    let ghost all = views(events@);
    proof {
        assert(views(list@) =~= emojied(all, pairs(missing@), 0).0);
    }
    for i in 0..events.len()
        invariant
            all == views(events@),
            views(list@) == emojied(all, pairs(missing@), i as int).0,
            code == emojied(all, pairs(missing@), i as int).1,
    {
        let ghost before = list@;
        proof {
            assert(all[i as int] == events@[i as int]@);
        }
        let event = match &events[i] {
            MdEvent::Text(text) if !code => MdEvent::Text(with_emoji_in(text.as_str(), missing)),
            other => copy_event(other),
        };
        match &events[i] {
            MdEvent::Start(MdTag::CodeBlock(_)) => {
                code = true;
            },
            MdEvent::End(TagEnd::CodeBlock) => {
                code = false;
            },
            _ => {},
        }
        proof {
            assert(views(before.push(event)) =~= views(before).push(event@));
        }
        list.push(event);
    }
    list
}

/// How many characters an emoji has at most.
pub const LONGEST: usize = 10;

/// The first shortcode, without its colons, that `emojis::get` and `Emoji::shortcode` give for an
/// emoji.
pub uninterp spec fn shortcode_of(emoji: Seq<char>) -> Option<Seq<char>>;

/// `emojis::get` is a lookup in a table that is part of the crate, and `Emoji::shortcode` gives
/// the first shortcode of what it finds, so the two are a function of the text alone, named
/// [`shortcode_of`].
#[verifier::external_body]
fn get_shortcode(emoji: &str) -> (found: Option<String>)
    ensures
        opt_view(found) == shortcode_of(emoji@),
{
    match emojis::get(emoji) {
        Some(emoji) => emoji.shortcode().map(String::from),
        None => None,
    }
}

/// How long the longest emoji of at most `most` characters is that stands in a text at `at`, and
/// its shortcode.
pub open spec fn emoji_standing(text: Seq<char>, at: int, most: int) -> Option<(int, Seq<char>)>
    decreases most,
{
    if most <= 0 {
        None
    } else if at + most > text.len() {
        emoji_standing(text, at, most - 1)
    } else {
        match shortcode_of(text.subrange(at, at + most)) {
            Some(code) => Some((most, code)),
            None => emoji_standing(text, at, most - 1),
        }
    }
}

/// An emoji in a text takes some of it.
pub proof fn standing_fits(text: Seq<char>, at: int, most: int)
    ensures
        emoji_standing(text, at, most) matches Some((size, _)) ==> 0 < size <= most && at + size
            <= text.len(),
    decreases most,
{
    if most > 0 {
        standing_fits(text, at, most - 1);
    }
}

/// The emoji in a text from `at` on, each with its shortcode. None starts with a character before
/// the punctuation marks and symbols of Unicode.
pub open spec fn written(text: Seq<char>, at: int) -> Seq<(Seq<char>, Seq<char>)>
    decreases text.len() - at,
{
    if at < 0 || at >= text.len() {
        Seq::empty()
    } else {
        proof {
            standing_fits(text, at, LONGEST as int);
        }
        match emoji_standing(text, at, LONGEST as int) {
            Some((size, code)) if text[at] >= '\u{2000}' => seq![
                (text.subrange(at, at + size), code),
            ] + written(text, at + size),
            _ => written(text, at + 1),
        }
    }
}

/// Pairs of texts as contracts speak of them.
pub open spec fn pairs(list: Seq<(String, String)>) -> Seq<(Seq<char>, Seq<char>)> {
    list.map_values(|pair: (String, String)| (pair.0@, pair.1@))
}

/// The longest emoji that stands in a text at `at`, by its length, and its shortcode.
fn find_standing(chars: &Vec<char>, at: usize) -> (found: Option<(usize, String)>)
    requires
        at < chars@.len(),
    ensures
        match found {
            Some((size, code)) => emoji_standing(chars@, at as int, LONGEST as int) == Some(
                (size as int, code@),
            ),
            None => emoji_standing(chars@, at as int, LONGEST as int) is None,
        },
{
    let mut most: usize = LONGEST;
    while most > 0
        invariant
            at < chars@.len(),
            most <= LONGEST,
            emoji_standing(chars@, at as int, LONGEST as int) == emoji_standing(
                chars@,
                at as int,
                most as int,
            ),
        decreases most,
    {
        if most <= chars.len() - at {
            if let Some(code) = get_shortcode(text_of(chars, at, at + most).as_str()) {
                return Some((most, code));
            }
        }
        most = most - 1;
    }
    None
}

/// The emoji in a text, each with its shortcode.
pub fn written_emoji(text: &str) -> (list: Vec<(String, String)>)
    ensures
        pairs(list@) == written(text@, 0),
{
    let chars = chars_of(text);
    let mut list: Vec<(String, String)> = Vec::new();
    let mut at: usize = 0;
    proof {
        assert(pairs(list@) + written(chars@, 0) =~= written(chars@, 0));
    }
    while at < chars.len()
        invariant
            at <= chars@.len(),
            pairs(list@) + written(chars@, at as int) == written(chars@, 0),
        decreases chars@.len() - at,
    {
        let ghost before = list@;
        proof {
            standing_fits(chars@, at as int, LONGEST as int);
        }
        let found = if chars[at] >= '\u{2000}' {
            find_standing(&chars, at)
        } else {
            None
        };
        match found {
            Some((size, code)) => {
                let item = (text_of(&chars, at, at + size), code);
                proof {
                    let rest = written(chars@, at + size);
                    assert(pairs(before.push(item)) =~= pairs(before).push((item.0@, item.1@)));
                    assert(pairs(before) + (seq![(item.0@, item.1@)] + rest) =~= pairs(before).push(
                        (item.0@, item.1@),
                    ) + rest);
                }
                list.push(item);
                at = at + size;
            },
            None => {
                at = at + 1;
            },
        }
    }
    proof {
        assert(pairs(list@) + Seq::<(Seq<char>, Seq<char>)>::empty() =~= pairs(list@));
    }
    list
}

/// The first of `missing` from `n` on that stands in a text at `at`.
pub open spec fn missing_at(
    text: Seq<char>,
    at: int,
    missing: Seq<(Seq<char>, Seq<char>)>,
    n: int,
) -> Option<int>
    decreases missing.len() - n,
{
    if n < 0 || n >= missing.len() {
        None
    } else if missing[n].0.len() > 0 && stands_at(text, at, missing[n].0) {
        Some(n)
    } else {
        missing_at(text, at, missing, n + 1)
    }
}

/// One that stands in a text is one of them.
pub proof fn missing_is_listed(
    text: Seq<char>,
    at: int,
    missing: Seq<(Seq<char>, Seq<char>)>,
    n: int,
)
    ensures
        missing_at(text, at, missing, n) matches Some(i) ==> 0 <= i < missing.len()
            && missing[i].0.len() > 0 && stands_at(text, at, missing[i].0),
    decreases missing.len() - n,
{
    if 0 <= n < missing.len() {
        missing_is_listed(text, at, missing, n + 1);
    }
}

/// A text from `at` on, with the shortcodes of the emoji that are missing in their place.
pub open spec fn spelled(text: Seq<char>, missing: Seq<(Seq<char>, Seq<char>)>, at: int) -> Seq<
    char,
>
    decreases text.len() - at,
{
    if at < 0 || at >= text.len() {
        Seq::empty()
    } else {
        proof {
            missing_is_listed(text, at, missing, 0);
        }
        match missing_at(text, at, missing, 0) {
            Some(i) => ":"@ + missing[i].1 + ":"@ + spelled(text, missing, at + missing[i].0.len()),
            None => seq![text[at]] + spelled(text, missing, at + 1),
        }
    }
}

/// The first of `missing` that stands in a text at `at`, by its length and its shortcode.
fn find_missing<'a>(chars: &Vec<char>, at: usize, missing: &'a Vec<(String, String)>) -> (found:
    Option<(usize, &'a String)>)
    requires
        at <= chars@.len(),
    ensures
        match (found, missing_at(chars@, at as int, pairs(missing@), 0)) {
            (Some((size, code)), Some(i)) => size == pairs(missing@)[i].0.len() && code@ == pairs(
                missing@,
            )[i].1,
            (None, None) => true,
            _ => false,
        },
{
    let ghost all = pairs(missing@);
    for n in 0..missing.len()
        invariant
            at <= chars@.len(),
            all == pairs(missing@),
            missing_at(chars@, at as int, all, 0) == missing_at(chars@, at as int, all, n as int),
    {
        proof {
            assert(all[n as int] == (missing@[n as int].0@, missing@[n as int].1@));
        }
        let emoji = chars_of(missing[n].0.as_str());
        if emoji.len() > 0 && has_at(chars, at, &emoji) {
            return Some((emoji.len(), &missing[n].1));
        }
    }
    None
}

/// A text with the shortcodes of the emoji that are missing in their place.
pub fn spell_text(text: &str, missing: &Vec<(String, String)>) -> (out: String)
    ensures
        out@ == spelled(text@, pairs(missing@), 0),
{
    let chars = chars_of(text);
    let ghost all = pairs(missing@);
    let mut out = String::new();
    let mut at: usize = 0;
    proof {
        assert(out@ + spelled(chars@, all, 0) =~= spelled(chars@, all, 0));
    }
    while at < chars.len()
        invariant
            at <= chars@.len(),
            all == pairs(missing@),
            out@ + spelled(chars@, all, at as int) == spelled(chars@, all, 0),
        decreases chars@.len() - at,
    {
        let ghost before = out@;
        proof {
            missing_is_listed(chars@, at as int, all, 0);
        }
        match find_missing(&chars, at, missing) {
            Some((size, code)) => {
                out.append(":");
                out.append(code.as_str());
                out.append(":");
                proof {
                    let rest = spelled(chars@, all, at + size);
                    assert(before + (":"@ + code@ + ":"@ + rest) =~= out@ + rest);
                }
                at = at + size;
            },
            None => {
                out.push(chars[at]);
                proof {
                    let rest = spelled(chars@, all, at + 1);
                    assert(before + (seq![chars@[at as int]] + rest) =~= out@ + rest);
                }
                at = at + 1;
            },
        }
    }
    proof {
        assert(out@ + Seq::<char>::empty() =~= out@);
    }
    out
}

/// Where no emoji is missing the text stays.
pub proof fn nothing_missing_spells_nothing(text: Seq<char>, at: int)
    requires
        0 <= at <= text.len(),
    ensures
        spelled(text, Seq::empty(), at) == text.skip(at),
        at == 0 ==> spelled(text, Seq::empty(), at) == text,
    decreases text.len() - at,
{
    if at < text.len() {
        nothing_missing_spells_nothing(text, at + 1);
        assert(seq![text[at]] + text.skip(at + 1) =~= text.skip(at));
    } else {
        assert(text.skip(at) =~= Seq::<char>::empty());
    }
    assert(text.skip(0) =~= text);
}

/// A text of raw HTML with the shortcodes of the emoji that are missing in their place.
pub open spec fn html_spelled(html: Seq<char>, missing: Seq<(Seq<char>, Seq<char>)>) -> Seq<char> {
    spelled(emoji_text(html_text(html)), missing, 0)
}

/// The first `n` events with the shortcodes of the emoji that are missing in their place, but in
/// the text of code blocks, and with the text of raw HTML for it; and whether a code block is
/// open.
pub open spec fn all_spelled(
    events: Seq<EventView>,
    missing: Seq<(Seq<char>, Seq<char>)>,
    n: int,
) -> (Seq<EventView>, bool)
    decreases n,
{
    if n <= 0 {
        (Seq::empty(), false)
    } else {
        let (before, code) = all_spelled(events, missing, n - 1);
        let event = events[n - 1];
        match event {
            MdEvent::Text(text) if !code => (
                before.push(MdEvent::Text(spelled(text, missing, 0))),
                code,
            ),
            MdEvent::Html(html) => (before.push(MdEvent::Text(html_spelled(html, missing))), code),
            MdEvent::InlineHtml(html) => (
                before.push(MdEvent::Text(html_spelled(html, missing))),
                code,
            ),
            MdEvent::Start(MdTag::CodeBlock(_)) => (before.push(event), true),
            MdEvent::End(TagEnd::CodeBlock) => (before.push(event), false),
            _ => (before.push(event), code),
        }
    }
}

/// A text of raw HTML with the shortcodes of the emoji that are missing in their place.
fn spell_html(html: &str, missing: &Vec<(String, String)>) -> (out: String)
    ensures
        out@ == html_spelled(html@, pairs(missing@)),
{
    spell_text(with_emoji(strip_html(html).as_str()).as_str(), missing)
}

/// Events with the shortcodes of the emoji that are missing in their place, but in the text of
/// code blocks, and with the text of raw HTML for it.
pub fn spell_out(events: &Vec<DocEvent>, missing: &Vec<(String, String)>) -> (list: Vec<DocEvent>)
    ensures
        views(list@) == all_spelled(views(events@), pairs(missing@), events@.len() as int).0,
{
    let mut list: Vec<DocEvent> = Vec::new();
    let mut code = false;
    let ghost all = views(events@);
    proof {
        assert(views(list@) =~= Seq::<EventView>::empty());
    }
    for i in 0..events.len()
        invariant
            all == views(events@),
            views(list@) == all_spelled(all, pairs(missing@), i as int).0,
            code == all_spelled(all, pairs(missing@), i as int).1,
    {
        let ghost before = list@;
        proof {
            assert(all[i as int] == events@[i as int]@);
        }
        let event = match &events[i] {
            MdEvent::Text(text) if !code => MdEvent::Text(spell_text(text.as_str(), missing)),
            MdEvent::Html(html) => MdEvent::Text(spell_html(html.as_str(), missing)),
            MdEvent::InlineHtml(html) => MdEvent::Text(spell_html(html.as_str(), missing)),
            other => copy_event(other),
        };
        match &events[i] {
            MdEvent::Start(MdTag::CodeBlock(_)) => {
                code = true;
            },
            MdEvent::End(TagEnd::CodeBlock) => {
                code = false;
            },
            _ => {},
        }
        proof {
            assert(views(before.push(event)) =~= views(before).push(event@));
        }
        list.push(event);
    }
    list
}

} // verus!
