//! What is written in titles, menus and the status bar. The words are translated elsewhere; here
//! they are templates with `{}` where a value goes.

use crate::conflict::IoFailure;
use crate::text::{
    chars_of, decimal, fill, fill_number, filled, same, texts, words, words_of,
};
use vstd::prelude::*;
use vstd::string::*;

verus! {

/// How many files, and how many folders, "Open Recent" remembers.
pub const MAX_RECENT: usize = 10;

/// The entries of a list other than `path`.
pub open spec fn others(recent: Seq<Seq<char>>, path: Seq<char>) -> Seq<Seq<char>> {
    recent.filter(|entry: Seq<char>| entry != path)
}

/// The recent files list with `path` moved or added to the front, and no longer than
/// [`MAX_RECENT`].
pub open spec fn pushed(recent: Seq<Seq<char>>, path: Seq<char>) -> Seq<Seq<char>> {
    let list = seq![path] + others(recent, path);
    if list.len() <= MAX_RECENT {
        list
    } else {
        list.take(MAX_RECENT as int)
    }
}

/// The recent files list with `path` moved or added to the front, and no longer than
/// [`MAX_RECENT`].
pub fn push_recent(recent: &Vec<String>, path: &str) -> (list: Vec<String>)
    ensures
        texts(list@) == pushed(texts(recent@), path@),
{
    let ghost all = texts(recent@);
    let ghost kept = |entry: Seq<char>| entry != path@;
    let mut list: Vec<String> = Vec::new();
    let first = String::from_str(path);
    proof {
        assert(texts(list@.push(first)) =~= seq![path@] + others(all.take(0), path@));
    }
    list.push(first);
    let mut i: usize = 0;
    while i < recent.len()
        invariant
            all == texts(recent@),
            kept == (|entry: Seq<char>| entry != path@),
            i <= recent@.len(),
            texts(list@) == seq![path@] + others(all.take(i as int), path@),
        decreases recent.len() - i,
    {
        proof {
            assert(all.take(i + 1).drop_last() =~= all.take(i as int));
            assert(all.take(i + 1).last() == recent@[i as int]@);
            reveal(Seq::filter);
        }
        if !same(recent[i].as_str(), path) {
            let entry = recent[i].clone();
            proof {
                assert(texts(list@.push(entry)) =~= texts(list@).push(entry@));
                assert(others(all.take(i + 1), path@) =~= others(all.take(i as int), path@).push(
                    entry@,
                ));
                assert(texts(list@).push(entry@) =~= seq![path@] + others(
                    all.take(i + 1),
                    path@,
                ));
            }
            list.push(entry);
        }
        i = i + 1;
    }
    proof {
        assert(all.take(all.len() as int) =~= all);
    }
    if list.len() > MAX_RECENT {
        let ghost whole = list@;
        let _ = list.split_off(MAX_RECENT);
        proof {
            assert(texts(list@) =~= texts(whole).take(MAX_RECENT as int));
        }
    }
    list
}

/// How often an entry is in a list.
pub open spec fn times(list: Seq<Seq<char>>, entry: Seq<char>) -> int
    decreases list.len(),
{
    if list.len() == 0 {
        0
    } else {
        times(list.drop_last(), entry) + if list.last() == entry {
            1int
        } else {
            0int
        }
    }
}

/// An entry is in the first part of a list no more often than in the whole.
proof fn times_of_part(list: Seq<Seq<char>>, entry: Seq<char>, n: int)
    requires
        0 <= n <= list.len(),
    ensures
        0 <= times(list.take(n), entry) <= times(list, entry),
    decreases list.len(),
{
    if n == list.len() {
        assert(list.take(n) =~= list);
        if n > 0 {
            times_of_part(list.drop_last(), entry, n - 1);
        }
    } else {
        times_of_part(list.drop_last(), entry, n);
        assert(list.drop_last().take(n) =~= list.take(n));
    }
}

/// The other entries are in a list no more often than before, and the one left out is not.
proof fn times_of_others(recent: Seq<Seq<char>>, path: Seq<char>, entry: Seq<char>)
    ensures
        times(seq![path] + others(recent, path), entry) == (if entry == path {
            1int
        } else {
            times(recent, entry)
        }),
        others(recent, path).len() <= recent.len(),
    decreases recent.len(),
{
    reveal(Seq::filter);
    let list = seq![path] + others(recent, path);
    if recent.len() == 0 {
        assert(list.drop_last() =~= Seq::<Seq<char>>::empty());
        assert(times(list.drop_last(), entry) == 0);
        assert(list.last() == path);
    } else {
        times_of_others(recent.drop_last(), path, entry);
        let before = seq![path] + others(recent.drop_last(), path);
        if recent.last() != path {
            assert(list.drop_last() =~= before);
            assert(list.last() == recent.last());
        } else {
            assert(list =~= before);
        }
    }
}

/// A file that is opened is first in the list and there only once, no other is there more often
/// than before, and the list stays short.
pub proof fn recent_files_are_listed_once(
    recent: Seq<Seq<char>>,
    path: Seq<char>,
    other: Seq<char>,
)
    ensures
        pushed(recent, path).len() <= MAX_RECENT,
        pushed(recent, path)[0] == path,
        times(pushed(recent, path), path) == 1,
        other != path ==> times(pushed(recent, path), other) <= times(recent, other),
{
    times_of_others(recent, path, path);
    times_of_others(recent, path, other);
    let list = seq![path] + others(recent, path);
    if list.len() > MAX_RECENT {
        times_of_part(list, other, MAX_RECENT as int);
        times_of_part(list, path, MAX_RECENT as int);
        let first = list.take(1);
        assert(first.drop_last() =~= Seq::<Seq<char>>::empty());
        assert(times(first.drop_last(), path) == 0);
        assert(times(first, path) == 1);
        times_of_part(list.take(MAX_RECENT as int), path, 1);
        assert(list.take(MAX_RECENT as int).take(1) =~= first);
    }
}

/// The word and character count of a text.
pub open spec fn counts(
    words_template: Seq<char>,
    chars_template: Seq<char>,
    text: Seq<char>,
) -> Seq<char> {
    filled(words_template, decimal(words_of(text).len())) + ", "@ + filled(
        chars_template,
        decimal(text.len()),
    )
}

/// How many words and characters a text has.
pub fn count(text: &str) -> (counted: (usize, usize))
    ensures
        counted.0 == words_of(text@).len(),
        counted.1 == text@.len(),
{
    let chars = chars_of(text);
    let found = words(&chars);
    proof {
        assert(texts(found@).len() == found@.len());
    }
    (found.len(), chars.len())
}

/// The word and character count of a text, as the status bar shows it. The templates are those
/// for so many words and characters.
pub fn status(words_template: &str, chars_template: &str, text: &str) -> (label: String)
    ensures
        label@ == counts(words_template@, chars_template@, text@),
{
    let (words, chars) = count(text);
    let mut label = fill_number(words_template, words as u128);
    label.append(", ");
    let second = fill_number(chars_template, chars as u128);
    label.append(second.as_str());
    label
}

/// The name of a document with a marker while it has unsaved changes.
pub open spec fn titled(name: Seq<char>, modified: bool) -> Seq<char> {
    if modified {
        "\u{2022} "@ + name
    } else {
        name
    }
}

/// The name of a document with a marker while it has unsaved changes.
pub fn title(name: &str, modified: bool) -> (label: String)
    ensures
        label@ == titled(name@, modified),
{
    if modified {
        let mut label = String::from_str("\u{2022} ");
        label.append(name);
        label
    } else {
        String::from_str(name)
    }
}

/// A tab of a window: the title of its document, the name of its file if it has one, and what
/// its file's folder is called.
#[derive(Debug, PartialEq)]
pub struct Tab {
    pub title: String,
    pub file_name: Option<String>,
    pub folder: String,
}

/// The names of the files of tabs.
pub open spec fn names(tabs: Seq<Tab>) -> Seq<Option<Seq<char>>> {
    tabs.map_values(|tab: Tab| crate::event::opt_view(tab.file_name))
}

/// Whether another tab than the one at `at` holds a file of the same name.
pub open spec fn shares_name(names: Seq<Option<Seq<char>>>, at: int) -> bool {
    names[at] is Some && exists|other: int|
        0 <= other < names.len() && other != at && #[trigger] names[other] == names[at]
}

/// The title of the tab at `at`.
pub open spec fn tab_title(tabs: Seq<Tab>, template: Seq<char>, at: int) -> Seq<char> {
    if shares_name(names(tabs), at) {
        filled(filled(template, tabs[at].title@), tabs[at].folder@)
    } else {
        tabs[at].title@
    }
}

/// Whether two names that may be missing are the same.
fn same_name(a: &Option<String>, b: &Option<String>) -> (equal: bool)
    ensures
        equal == (crate::event::opt_view(*a) == crate::event::opt_view(*b)),
{
    match (a, b) {
        (Some(a), Some(b)) => same(a.as_str(), b.as_str()),
        (None, None) => true,
        _ => false,
    }
}

/// The titles of tabs: each that of its document, with the name of the folder of its file as
/// well, as `template` has the two, while another tab holds a file of the same name.
pub fn tab_titles(tabs: &Vec<Tab>, template: &str) -> (titles: Vec<String>)
    ensures
        texts(titles@) == Seq::new(tabs@.len(), |at: int| tab_title(tabs@, template@, at)),
{
    let mut titles: Vec<String> = Vec::new();
    for at in 0..tabs.len()
        invariant
            texts(titles@) == Seq::new(at as nat, |at: int| tab_title(tabs@, template@, at)),
    {
        let mut shared = false;
        if tabs[at].file_name.is_some() {
            for other in 0..tabs.len()
                invariant
                    at < tabs@.len(),
                    tabs@[at as int].file_name is Some,
                    shared == (exists|i: int|
                        0 <= i < other && i != at && #[trigger] names(tabs@)[i] == names(
                            tabs@,
                        )[at as int]),
            {
                proof {
                    assert(names(tabs@)[other as int] == crate::event::opt_view(
                        tabs@[other as int].file_name,
                    ));
                }
                if other != at && same_name(&tabs[other].file_name, &tabs[at].file_name) {
                    shared = true;
                }
            }
        }
        let label = if shared {
            fill(fill(template, tabs[at].title.as_str()).as_str(), tabs[at].folder.as_str())
        } else {
            tabs[at].title.clone()
        };
        proof {
            assert(names(tabs@)[at as int] == crate::event::opt_view(
                tabs@[at as int].file_name,
            ));
            assert(label@ == tab_title(tabs@, template@, at as int));
            assert(texts(titles@.push(label)) =~= texts(titles@).push(label@));
            assert(texts(titles@).push(label@) =~= Seq::new(
                (at + 1) as nat,
                |at: int| tab_title(tabs@, template@, at),
            ));
        }
        titles.push(label);
    }
    titles
}

/// What an error of reading or writing a file is called; none if there are no better words than
/// the system's.
pub fn describe_io_error(failure: IoFailure) -> (message: Option<&'static str>)
    ensures
        match message {
            Some(message) => match failure {
                IoFailure::PermissionDenied => message@
                    == "You do not have permission to access this file."@,
                IoFailure::NotFound => message@ == "The file no longer exists."@,
                IoFailure::StorageFull => message@
                    == "There is not enough space left on the disk."@,
                IoFailure::ReadOnlyFilesystem => message@ == "The location is read-only."@,
                _ => false,
            },
            None => failure == IoFailure::QuotaExceeded || failure == IoFailure::Other,
        },
{
    match failure {
        IoFailure::PermissionDenied => Some("You do not have permission to access this file."),
        IoFailure::NotFound => Some("The file no longer exists."),
        IoFailure::StorageFull => Some("There is not enough space left on the disk."),
        IoFailure::ReadOnlyFilesystem => Some("The location is read-only."),
        _ => None,
    }
}

/// Markdown markup around a selection.
pub fn wrapped(selection: &str, prefix: &str, suffix: &str) -> (text: String)
    ensures
        text@ == prefix@ + selection@ + suffix@,
{
    let mut text = String::from_str(prefix);
    text.append(selection);
    text.append(suffix);
    text
}

/// Two ways to tell the other entries give the same ones.
proof fn others_are_kept(
    recent: Seq<Seq<char>>,
    path: Seq<char>,
    is_other: spec_fn(Seq<char>) -> bool,
)
    requires
        forall|entry: Seq<char>| #[trigger] is_other(entry) <==> entry != path,
    ensures
        others(recent, path) == recent.filter(is_other),
    decreases recent.len(),
{
    reveal(Seq::filter);
    if recent.len() > 0 {
        others_are_kept(recent.drop_last(), path, is_other);
        assert(is_other(recent.last()) <==> recent.last() != path);
    }
}

/// The files that were opened before stay in the list, in order, as long as there is room.
pub proof fn recent_files_stay_in_order(
    recent: Seq<Seq<char>>,
    path: Seq<char>,
    is_other: spec_fn(Seq<char>) -> bool,
)
    requires
        forall|entry: Seq<char>| #[trigger] is_other(entry) <==> entry != path,
    ensures
        pushed(recent, path).drop_first().is_prefix_of(recent.filter(is_other)),
        recent.len() < 10 ==> pushed(recent, path).drop_first() == recent.filter(is_other),
        recent.filter(is_other).len() >= 9 ==> pushed(recent, path).len() == 10,
{
    let kept = others(recent, path);
    others_are_kept(recent, path, is_other);
    times_of_others(recent, path, path);
    let list = seq![path] + kept;
    assert(list.drop_first() =~= kept);
    if list.len() > MAX_RECENT {
        let short = list.take(MAX_RECENT as int).drop_first();
        assert(kept.take(short.len() as int) =~= short);
    }
}

/// A document with unsaved changes has its name marked, and one without has it as it is.
pub proof fn unsaved_documents_are_marked(name: Seq<char>)
    ensures
        titled(name, false) == name,
        titled(name, true).len() == name.len() + 2,
        titled(name, true)[0] == '\u{2022}',
        titled(name, true).skip(2) == name,
{
    reveal_strlit("\u{2022} ");
    assert(titled(name, true).skip(2) =~= name);
}

}
