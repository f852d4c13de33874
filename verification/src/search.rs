//! Find and replace: the matches of a text in the rendered preview, which of them is selected,
//! and what is said of them.

use crate::sorting::{sort, sorted, views_of, Ordered};
use crate::text::{
    chars_of, find, find_at, found_first, is_ascii_text, lowercase, lowered, stands_at, text_of,
    to_lowercase,
};
use vstd::prelude::*;
use vstd::string::*;

verus! {

/// The matches of `need` in `text` at or after `from` that do not overlap, by where they start
/// and end, first to last.
pub open spec fn matches_from(text: Seq<char>, need: Seq<char>, from: int) -> Seq<(int, int)>
    decreases text.len() - from,
{
    if need.len() == 0 {
        Seq::empty()
    } else {
        match find_at(text, from, need) {
            Some(at) => if from <= at && at + need.len() <= text.len() {
                seq![(at, at + need.len())] + matches_from(text, need, at + need.len())
            } else {
                Seq::empty()
            },
            None => Seq::empty(),
        }
    }
}

/// Offsets as text buffers and labels count them.
pub open spec fn offsets(matches: Seq<(int, int)>) -> Seq<(i32, i32)> {
    matches.map_values(|found: (int, int)| (found.0 as i32, found.1 as i32))
}

/// Case-insensitive, non-overlapping matches of `needle` as character offset ranges, which is
/// what text buffers and label selections count in. Exact for ASCII; a character whose lower
/// case has another length shifts the ranges after it.
pub fn find_all_ci(haystack: &str, needle: &str) -> (found: Vec<(i32, i32)>)
    ensures
        found@ == offsets(matches_from(lowercase(haystack@), lowercase(needle@), 0)),
        is_ascii_text(haystack@) && is_ascii_text(needle@) ==> found@ == offsets(
            matches_from(lowered(haystack@), lowered(needle@), 0),
        ),
        needle@.len() == 0 ==> found@.len() == 0,
{
    find_all(to_lowercase(haystack).as_str(), to_lowercase(needle).as_str())
}

/// Non-overlapping matches of `need` as character offset ranges.
pub fn find_all(text: &str, need: &str) -> (found: Vec<(i32, i32)>)
    ensures
        found@ == offsets(matches_from(text@, need@, 0)),
{
    let text = chars_of(text);
    let need = chars_of(need);
    let mut found: Vec<(i32, i32)> = Vec::new();
    if need.len() == 0 {
        proof {
            assert(found@ =~= offsets(matches_from(text@, need@, 0)));
        }
        return found;
    }
    let mut from: usize = 0;
    let mut done = false;
    proof {
        assert(offsets(matches_from(text@, need@, 0)) =~= found@ + offsets(
            matches_from(text@, need@, 0),
        ));
    }
    while !done
        invariant
            need@.len() > 0,
            from <= text@.len(),
            !done ==> offsets(matches_from(text@, need@, 0)) == found@ + offsets(
                matches_from(text@, need@, from as int),
            ),
            done ==> offsets(matches_from(text@, need@, 0)) == found@,
        decreases text@.len() - from + (if done { 0int } else { 1int }),
    {
        match find(&text, from, &need) {
            Some(at) => {
                proof {
                    found_first(text@, from as int, need@);
                    assert(at + need.len() <= text.len());
                    assert(offsets(matches_from(text@, need@, from as int)) =~= seq![
                        (at as i32, (at + need@.len()) as i32),
                    ] + offsets(matches_from(text@, need@, at + need@.len())));
                }
                let end = at + need.len();
                let ghost before = found@;
                found.push((#[verifier::truncate] (at as i32), #[verifier::truncate] (end as i32)));
                proof {
                    assert(found@ + offsets(matches_from(text@, need@, end as int)) =~= before
                        + offsets(matches_from(text@, need@, from as int)));
                }
                from = end;
            },
            None => {
                proof {
                    assert(offsets(matches_from(text@, need@, from as int)) =~= Seq::<
                        (i32, i32),
                    >::empty());
                    assert(found@ + Seq::<(i32, i32)>::empty() =~= found@);
                }
                done = true;
            },
        }
    }
    found
}

/// Matches hold the text that is searched for, none starts before the one before it ended, and
/// between them the text stands nowhere.
pub proof fn matches_are_all_there_are(text: Seq<char>, need: Seq<char>, from: int)
    requires
        0 <= from,
        need.len() > 0,
    ensures
        ({
            let matches = matches_from(text, need, from);
            &&& forall|i: int|
                0 <= i < matches.len() ==> {
                    let found = #[trigger] matches[i];
                    &&& stands_at(text, found.0, need)
                    &&& found.1 == found.0 + need.len()
                    &&& found.0 >= (if i > 0 {
                        matches[i - 1].1
                    } else {
                        from
                    })
                }
            &&& forall|at: int|
                from <= at && #[trigger] stands_at(text, at, need) ==> exists|i: int|
                    0 <= i < matches.len() && (#[trigger] matches[i]).0 <= at < matches[i].1
        }),
    decreases text.len() - from,
{
    let matches = matches_from(text, need, from);
    found_first(text, from, need);
    match find_at(text, from, need) {
        Some(at) => {
            assert(at + need.len() <= text.len());
            let next = at + need.len();
            let rest = matches_from(text, need, next);
            matches_are_all_there_are(text, need, next);
            assert(matches =~= seq![(at, next)] + rest);
            assert forall|i: int| 0 <= i < matches.len() implies {
                let found = #[trigger] matches[i];
                &&& stands_at(text, found.0, need)
                &&& found.1 == found.0 + need.len()
                &&& found.0 >= (if i > 0 {
                    matches[i - 1].1
                } else {
                    from
                })
            } by {
                if i > 0 {
                    assert(matches[i] == rest[i - 1]);
                    if i > 1 {
                        assert(matches[i - 1] == rest[i - 2]);
                    }
                }
            }
            assert forall|other: int|
                from <= other && #[trigger] stands_at(text, other, need) implies exists|i: int|
                0 <= i < matches.len() && (#[trigger] matches[i]).0 <= other < matches[i].1 by {
                if other < next {
                    assert(matches[0] == (at, next));
                } else {
                    let i = choose|i: int|
                        0 <= i < rest.len() && (#[trigger] rest[i]).0 <= other < rest[i].1;
                    assert(matches[i + 1] == rest[i]);
                }
            }
        },
        None => {},
    }
}

/// In ASCII text the matches are where they say: each range of the text holds the needle but for
/// the case of letters, and wherever the needle stands but for case, a match reaches.
pub proof fn ascii_matches_are_exact(haystack: Seq<char>, needle: Seq<char>)
    requires
        is_ascii_text(haystack),
        is_ascii_text(needle),
        needle.len() > 0,
    ensures
        ({
            let matches = matches_from(lowercase(haystack), lowercase(needle), 0);
            &&& forall|i: int|
                0 <= i < matches.len() ==> {
                    let found = #[trigger] matches[i];
                    &&& 0 <= found.0 < found.1 <= haystack.len()
                    &&& lowered(haystack.subrange(found.0, found.1)) == lowered(needle)
                }
            &&& forall|at: int|
                0 <= at <= haystack.len() - needle.len() && lowered(
                    #[trigger] haystack.subrange(at, at + needle.len()),
                ) == lowered(needle) ==> exists|i: int|
                    0 <= i < matches.len() && (#[trigger] matches[i]).0 <= at < matches[i].1
        }),
{
    let text = lowercase(haystack);
    let need = lowercase(needle);
    let matches = matches_from(text, need, 0);
    assert(text.len() == haystack.len() && need.len() == needle.len());
    matches_are_all_there_are(text, need, 0);
    assert forall|i: int| 0 <= i < matches.len() implies {
        let found = #[trigger] matches[i];
        &&& 0 <= found.0 < found.1 <= haystack.len()
        &&& lowered(haystack.subrange(found.0, found.1)) == lowered(needle)
    } by {
        match_is_at(matches, i);
        let found = matches[i];
        assert(lowered(haystack.subrange(found.0, found.1)) =~= text.subrange(found.0, found.1));
    }
    assert forall|at: int|
        0 <= at <= haystack.len() - needle.len() && lowered(
            #[trigger] haystack.subrange(at, at + needle.len()),
        ) == lowered(needle) implies exists|i: int|
        0 <= i < matches.len() && (#[trigger] matches[i]).0 <= at < matches[i].1 by {
        assert(lowered(haystack.subrange(at, at + needle.len())) =~= text.subrange(
            at,
            at + need.len(),
        ));
        assert(stands_at(text, at, need));
    }
}

/// Where each match starts after the one before it ends, none starts before the text.
proof fn match_is_at(matches: Seq<(int, int)>, i: int)
    requires
        0 <= i < matches.len(),
        forall|j: int|
            0 <= j < matches.len() ==> {
                let found = #[trigger] matches[j];
                &&& found.0 < found.1
                &&& found.0 >= (if j > 0 {
                    matches[j - 1].1
                } else {
                    0
                })
            },
    ensures
        0 <= matches[i].0,
    decreases i,
{
    if i > 0 {
        match_is_at(matches, i - 1);
    }
}

/// What a match of the preview is in: its prose, a code block or a table cell, by the number of
/// the surface that shows it.
#[derive(Clone, Copy, Debug, PartialEq, Eq, Structural)]
pub enum PreviewTarget {
    Prose { start: i32, end: i32 },
    Code { surface: usize, start: i32, end: i32 },
    Cell { surface: usize, start: i32, end: i32 },
}

/// A match of the preview. Its key tells where in the document it is: at the offset of its
/// prose or of its surface's anchor in the preview, and at the offset in the surface.
#[derive(Clone, Copy, Debug, PartialEq, Eq)]
pub struct PreviewMatch {
    pub key: (i32, i32),
    pub target: PreviewTarget,
}

impl View for PreviewMatch {
    type V = PreviewMatch;

    open spec fn view(&self) -> PreviewMatch {
        *self
    }
}

/// Whether a key is before another.
pub open spec fn key_before(a: (i32, i32), b: (i32, i32)) -> bool {
    a.0 < b.0 || (a.0 == b.0 && a.1 < b.1)
}

/// Whether a key is before another.
fn is_before(a: (i32, i32), b: (i32, i32)) -> (before: bool)
    ensures
        before == key_before(a, b),
{
    a.0 < b.0 || (a.0 == b.0 && a.1 < b.1)
}

impl Ordered for PreviewMatch {
    open spec fn leq(a: PreviewMatch, b: PreviewMatch) -> bool {
        !key_before(b.key, a.key)
    }

    proof fn leq_is_order() {
    }

    fn precedes(&self, other: &Self) -> (found: bool) {
        !is_before(other.key, self.key)
    }
}

/// A code block or a table cell of the preview: where its anchor is, and its text.
#[derive(Debug, PartialEq)]
pub struct Surface {
    pub code: bool,
    pub anchor: i32,
    pub text: String,
}

/// The matches in the prose.
pub open spec fn prose_matches(prose: Seq<(i32, i32)>) -> Seq<PreviewMatch> {
    prose.map_values(
        |found: (i32, i32)|
            PreviewMatch {
                key: (found.0, 0i32),
                target: PreviewTarget::Prose { start: found.0, end: found.1 },
            },
    )
}

/// A match in a surface.
pub open spec fn surface_match(
    code: bool,
    anchor: i32,
    number: int,
    found: (i32, i32),
) -> PreviewMatch {
    PreviewMatch {
        key: (anchor, found.0),
        target: if code {
            PreviewTarget::Code { surface: number as usize, start: found.0, end: found.1 }
        } else {
            PreviewTarget::Cell { surface: number as usize, start: found.0, end: found.1 }
        },
    }
}

/// The matches in a surface.
pub open spec fn surface_matches(
    code: bool,
    anchor: i32,
    number: int,
    found: Seq<(i32, i32)>,
) -> Seq<PreviewMatch> {
    found.map_values(|found: (i32, i32)| surface_match(code, anchor, number, found))
}

/// The matches of `query` in the first `n` surfaces.
pub open spec fn all_surface_matches(surfaces: Seq<Surface>, query: Seq<char>, n: int) -> Seq<
    PreviewMatch,
>
    decreases n,
{
    if n <= 0 {
        Seq::empty()
    } else {
        let surface = surfaces[n - 1];
        all_surface_matches(surfaces, query, n - 1) + surface_matches(
            surface.code,
            surface.anchor,
            n - 1,
            offsets(matches_from(lowercase(surface.text@), lowercase(query), 0)),
        )
    }
}

/// The matches of `query` in the preview, in document order: those in its prose, which are
/// given, and those in its surfaces.
pub fn preview_matches(prose: &Vec<(i32, i32)>, surfaces: &Vec<Surface>, query: &str) -> (matches:
    Vec<PreviewMatch>)
    ensures
        matches@ == sorted(
            prose_matches(prose@) + all_surface_matches(
                surfaces@,
                query@,
                surfaces@.len() as int,
            ),
            |a: PreviewMatch, b: PreviewMatch| PreviewMatch::leq(a, b),
        ),
{
    let mut matches: Vec<PreviewMatch> = Vec::new();
    for i in 0..prose.len()
        invariant
            matches@ == prose_matches(prose@.take(i as int)),
    {
        let (start, end) = prose[i];
        proof {
            assert(prose_matches(prose@.take(i + 1)) =~= prose_matches(prose@.take(i as int)).push(
                PreviewMatch {
                    key: (start, 0i32),
                    target: PreviewTarget::Prose { start, end },
                },
            ));
        }
        matches.push(
            PreviewMatch { key: (start, 0), target: PreviewTarget::Prose { start, end } },
        );
    }
    proof {
        assert(prose@.take(prose@.len() as int) =~= prose@);
        assert(prose_matches(prose@) + all_surface_matches(surfaces@, query@, 0) =~= matches@);
    }
    for i in 0..surfaces.len()
        invariant
            matches@ == prose_matches(prose@) + all_surface_matches(
                surfaces@,
                query@,
                i as int,
            ),
    {
        let surface = &surfaces[i];
        let found = find_all_ci(surface.text.as_str(), query);
        let ghost before = matches@;
        proof {
            assert(before + surface_matches(
                surface.code,
                surface.anchor,
                i as int,
                found@.take(0),
            ) =~= before);
        }
        for j in 0..found.len()
            invariant
                i < surfaces.len(),
                matches@ == before + surface_matches(
                    surface.code,
                    surface.anchor,
                    i as int,
                    found@.take(j as int),
                ),
        {
            let (start, end) = found[j];
            let target = if surface.code {
                PreviewTarget::Code { surface: i, start, end }
            } else {
                PreviewTarget::Cell { surface: i, start, end }
            };
            let item = PreviewMatch { key: (surface.anchor, start), target };
            proof {
                assert(item == surface_match(
                    surface.code,
                    surface.anchor,
                    i as int,
                    (start, end),
                ));
                assert(surface_matches(
                    surface.code,
                    surface.anchor,
                    i as int,
                    found@.take(j + 1),
                ) =~= surface_matches(
                    surface.code,
                    surface.anchor,
                    i as int,
                    found@.take(j as int),
                ).push(item));
            }
            matches.push(item);
        }
        proof {
            assert(found@.take(found@.len() as int) =~= found@);
            assert(matches@ =~= prose_matches(prose@) + all_surface_matches(
                surfaces@,
                query@,
                i + 1,
            ));
        }
    }
    proof {
        assert(views_of(matches@) =~= matches@);
    }
    let matches = sort(matches);
    proof {
        assert(views_of(matches@) =~= matches@);
    }
    matches
}

/// The key while no match is selected.
pub fn no_match() -> (key: (i32, i32))
    ensures
        key == (-1i32, -1i32),
{
    (-1, -1)
}

/// The first of the keys from `n` on that is at `current` or after it, or only after it.
pub open spec fn first_from(keys: Seq<(i32, i32)>, current: (i32, i32), at: bool, n: int) -> int
    decreases keys.len() - n,
{
    if n < 0 || n >= keys.len() {
        0
    } else if key_before(current, keys[n]) || (at && keys[n] == current) {
        n
    } else {
        first_from(keys, current, at, n + 1)
    }
}

/// The last of the first `n` keys that is before `current`, or else the last of all.
pub open spec fn last_before(keys: Seq<(i32, i32)>, current: (i32, i32), n: int) -> int
    decreases n,
{
    if n <= 0 || n > keys.len() {
        keys.len() - 1
    } else if key_before(keys[n - 1], current) {
        n - 1
    } else {
        last_before(keys, current, n - 1)
    }
}

/// Which match is selected next, if the one at `current` is selected now: the next one or the
/// one before, from the other end when there is none. `from_current` keeps the selected match
/// when it still matches, as typing does.
pub open spec fn picked(
    keys: Seq<(i32, i32)>,
    current: (i32, i32),
    forward: bool,
    from_current: bool,
) -> int {
    if from_current {
        first_from(keys, current, true, 0)
    } else if forward {
        first_from(keys, current, false, 0)
    } else {
        last_before(keys, current, keys.len() as int)
    }
}

/// The keys of matches.
pub open spec fn keys_of(matches: Seq<PreviewMatch>) -> Seq<(i32, i32)> {
    matches.map_values(|found: PreviewMatch| found.key)
}

/// Which of `matches` is selected next, if the one at `current` is selected now.
pub fn pick_match(
    matches: &Vec<PreviewMatch>,
    current: (i32, i32),
    forward: bool,
    from_current: bool,
) -> (picked_match: Option<usize>)
    ensures
        match picked_match {
            Some(index) => matches@.len() > 0 && index < matches@.len() && index == picked(
                keys_of(matches@),
                current,
                forward,
                from_current,
            ),
            None => matches@.len() == 0,
        },
{
    if matches.len() == 0 {
        return None;
    }
    let ghost keys = keys_of(matches@);
    if from_current || forward {
        let mut n: usize = 0;
        while n < matches.len()
            invariant
                keys == keys_of(matches@),
                matches@.len() > 0,
                from_current || forward,
                n <= matches@.len(),
                first_from(keys, current, from_current, 0) == first_from(
                    keys,
                    current,
                    from_current,
                    n as int,
                ),
            decreases matches.len() - n,
        {
            let key = matches[n].key;
            if is_before(current, key) || (from_current && key.0 == current.0 && key.1
                == current.1) {
                return Some(n);
            }
            n = n + 1;
        }
        Some(0)
    } else {
        let mut n: usize = matches.len();
        while n > 0
            invariant
                keys == keys_of(matches@),
                matches@.len() > 0,
                !from_current,
                !forward,
                n <= matches@.len(),
                last_before(keys, current, keys.len() as int) == last_before(
                    keys,
                    current,
                    n as int,
                ),
            decreases n,
        {
            if is_before(matches[n - 1].key, current) {
                return Some(n - 1);
            }
            n = n - 1;
        }
        Some(matches.len() - 1)
    }
}

/// Whether each key is before the next.
pub open spec fn in_order(keys: Seq<(i32, i32)>) -> bool {
    forall|i: int, j: int|
        0 <= i < j < keys.len() ==> key_before(#[trigger] keys[i], #[trigger] keys[j])
}

/// From every match the search goes on to the next one, and back to the one before, and round
/// at the ends.
pub proof fn search_goes_round(keys: Seq<(i32, i32)>, at: int)
    requires
        in_order(keys),
        0 <= at < keys.len(),
    ensures
        picked(keys, keys[at], true, true) == at,
        picked(keys, keys[at], true, false) == (if at + 1 < keys.len() {
            at + 1
        } else {
            0
        }),
        picked(keys, keys[at], false, false) == (if at > 0 {
            at - 1
        } else {
            keys.len() - 1
        }),
{
    first_is_at(keys, at, true, 0);
    first_is_at(keys, at, false, 0);
    last_is_before(keys, at, keys.len() as int);
}

/// The first key from the one at `at` on.
proof fn first_is_at(keys: Seq<(i32, i32)>, at: int, same: bool, n: int)
    requires
        in_order(keys),
        0 <= at < keys.len(),
        0 <= n <= at || (!same && n == at + 1),
    ensures
        first_from(keys, keys[at], same, n) == (if same {
            at
        } else if at + 1 < keys.len() {
            at + 1
        } else {
            0
        }),
    decreases keys.len() - n,
{
    if n < at {
        assert(key_before(keys[n], keys[at]));
        first_is_at(keys, at, same, n + 1);
    } else if n == at && !same {
        first_is_at(keys, at, same, n + 1);
    } else if n == at + 1 && n < keys.len() {
        assert(key_before(keys[at], keys[n]));
    }
}

/// The last key before the one at `at`.
proof fn last_is_before(keys: Seq<(i32, i32)>, at: int, n: int)
    requires
        in_order(keys),
        0 <= at < keys.len(),
        at <= n <= keys.len(),
    ensures
        last_before(keys, keys[at], n) == (if at > 0 {
            at - 1
        } else {
            keys.len() - 1
        }),
    decreases n,
{
    if n > at {
        if n - 1 > at {
            assert(key_before(keys[at], keys[n - 1]));
        }
        last_is_before(keys, at, n - 1);
    } else if n > 0 {
        assert(key_before(keys[n - 1], keys[at]));
    }
}

/// What is said of a search.
#[derive(Clone, Copy, Debug, PartialEq, Eq, Structural)]
pub enum SearchStatus {
    /// Nothing: nothing is searched for.
    Silent,
    Searching,
    NoMatches,
    /// A match is selected, the so manieth of so many.
    Selected { position: i32, count: i32 },
    Count(i32),
}

/// What is said of a search in the editor that has found `count` matches so far, if the
/// selection is the match at `position`. A negative count is not final.
pub fn search_status(has_text: bool, count: i32, position: i32) -> (status: SearchStatus)
    ensures
        status == (if !has_text {
            SearchStatus::Silent
        } else if count < 0 {
            SearchStatus::Searching
        } else if count == 0 {
            SearchStatus::NoMatches
        } else if position > 0 {
            SearchStatus::Selected { position, count }
        } else {
            SearchStatus::Count(count)
        }),
{
    if !has_text {
        SearchStatus::Silent
    } else if count < 0 {
        SearchStatus::Searching
    } else if count == 0 {
        SearchStatus::NoMatches
    } else if position > 0 {
        SearchStatus::Selected { position, count }
    } else {
        SearchStatus::Count(count)
    }
}

/// Whether there is something to replace.
pub fn can_replace(has_text: bool, count: i32) -> (can: bool)
    ensures
        can == (has_text && count > 0),
{
    has_text && count > 0
}

/// Where a search in the editor starts: after the selection, or before it when it goes back, or
/// at the cursor where nothing is selected.
pub fn search_offset(selection: Option<(i32, i32)>, cursor: i32, forward: bool) -> (offset: i32)
    ensures
        offset == (match selection {
            Some((start, end)) => if forward {
                end
            } else {
                start
            },
            None => cursor,
        }),
{
    match selection {
        Some((start, end)) => if forward {
            end
        } else {
            start
        },
        None => cursor,
    }
}

/// The characters of a text from `start` up to `end`, as far as it has them.
pub open spec fn piece(text: Seq<char>, start: int, end: int) -> Seq<char> {
    if start >= text.len() {
        Seq::empty()
    } else if end >= text.len() {
        text.skip(start)
    } else {
        text.subrange(start, end)
    }
}

/// The text of a table cell that is selected from character `start` up to `end`.
pub fn selection_text(text: &str, start: usize, end: usize) -> (selected: String)
    requires
        start <= end,
    ensures
        selected@ == piece(text@, start as int, end as int),
{
    let chars = chars_of(text);
    let selected = if start >= chars.len() {
        String::new()
    } else if end >= chars.len() {
        text_of(&chars, start, chars.len())
    } else {
        text_of(&chars, start, end)
    };
    proof {
        assert(selected@ =~= piece(text@, start as int, end as int));
    }
    selected
}

/// The first match from a place on, or the first of all if there is none.
proof fn first_is_next(keys: Seq<(i32, i32)>, current: (i32, i32), at: bool, n: int)
    requires
        0 <= n,
    ensures
        ({
            let next = first_from(keys, current, at, n);
            let comes = |key: (i32, i32)|
                key_before(current, key) || (at && key == current);
            &&& (exists|i: int| n <= i < keys.len() && comes(#[trigger] keys[i])) ==> n <= next
                < keys.len() && comes(keys[next]) && forall|i: int|
                n <= i < next ==> !comes(#[trigger] keys[i])
            &&& (forall|i: int| n <= i < keys.len() ==> !comes(#[trigger] keys[i])) ==> next == 0
        }),
    decreases keys.len() - n,
{
    if n < keys.len() {
        first_is_next(keys, current, at, n + 1);
    }
}

/// The last match before a place, or the last of all if there is none.
proof fn last_is_previous(keys: Seq<(i32, i32)>, current: (i32, i32), n: int)
    requires
        0 <= n <= keys.len(),
    ensures
        ({
            let previous = last_before(keys, current, n);
            &&& (exists|i: int| 0 <= i < n && key_before(#[trigger] keys[i], current)) ==> 0
                <= previous < n && key_before(keys[previous], current) && forall|i: int|
                previous < i < n ==> !key_before(#[trigger] keys[i], current)
            &&& (forall|i: int| 0 <= i < n ==> !key_before(#[trigger] keys[i], current))
                ==> previous == keys.len() - 1
        }),
    decreases n,
{
    if n > 0 {
        last_is_previous(keys, current, n - 1);
    }
}

/// Whatever is selected, searching on selects the first match after it, or the first of all if
/// there is none, searching back the last one before it, or the last of all, and typing the first
/// one that does not come before it.
pub proof fn search_selects_the_nearest_match(keys: Seq<(i32, i32)>, current: (i32, i32))
    requires
        keys.len() > 0,
    ensures
        ({
            let next = picked(keys, current, true, false);
            &&& 0 <= next < keys.len()
            &&& forall|i: int| 0 <= i < next ==> !key_before(current, #[trigger] keys[i])
            &&& key_before(current, keys[next]) || (next == 0 && forall|i: int|
                0 <= i < keys.len() ==> !key_before(current, #[trigger] keys[i]))
        }),
        ({
            let previous = picked(keys, current, false, false);
            &&& 0 <= previous < keys.len()
            &&& forall|i: int|
                previous < i < keys.len() ==> !key_before(#[trigger] keys[i], current)
            &&& key_before(keys[previous], current) || (previous == keys.len() - 1 && forall|i: int|
                0 <= i < keys.len() ==> !key_before(#[trigger] keys[i], current))
        }),
        ({
            let kept = picked(keys, current, true, true);
            &&& 0 <= kept < keys.len()
            &&& forall|i: int|
                0 <= i < kept ==> !key_before(current, #[trigger] keys[i]) && keys[i] != current
            &&& key_before(current, keys[kept]) || keys[kept] == current || (kept == 0
                && forall|i: int|
                0 <= i < keys.len() ==> !key_before(current, #[trigger] keys[i]) && keys[i]
                    != current)
        }),
{
    first_is_next(keys, current, false, 0);
    first_is_next(keys, current, true, 0);
    last_is_previous(keys, current, keys.len() as int);
    if exists|i: int| 0 <= i < keys.len() && key_before(current, #[trigger] keys[i]) {
        let i = choose|i: int| 0 <= i < keys.len() && key_before(current, #[trigger] keys[i]);
        assert(key_before(current, keys[i]));
    }
}

}
