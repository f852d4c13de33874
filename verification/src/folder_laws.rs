//! What holds of every listing of a folder, and of what is looked for in one.

use crate::folder::{
    is_listed, is_markdown_name, matching, rows, scan_of, walk, Disk, EntryView, Found, FoundView,
    Kind,
};
use crate::sorting::{in_order, lex_less, lex_total, sorting_orders, Ordered};
use crate::text::{holds, is_ascii_text, lowercase, lowered, stands_at};
use std::path::PathBuf;
use vstd::prelude::*;

verus! {

/// The files among `entries` and below them, by their names and paths, in the order in which they
/// are listed.
pub open spec fn files_of(entries: Seq<EntryView>) -> Seq<(Seq<char>, PathBuf)>
    decreases entries,
{
    if entries.len() == 0 {
        Seq::empty()
    } else {
        let entry = entries[entries.len() - 1];
        files_of(entries.drop_last()) + match entry.children {
            Some(children) => files_of(children),
            None => seq![(entry.name, entry.path)],
        }
    }
}

/// The files of a folder of `disk` and of the folders below it, `depth` deep at most.
pub open spec fn all_files(disk: Disk, folder: PathBuf, depth: nat) -> Seq<(Seq<char>, PathBuf)>
    decreases depth, 1nat, 0nat,
{
    match disk(folder) {
        Some(found) if depth > 0 => files_below(disk, rows(found), (depth - 1) as nat),
        _ => Seq::empty(),
    }
}

/// The files among the given names of a folder and below them.
pub open spec fn files_below(disk: Disk, rows: Seq<FoundView>, depth: nat) -> Seq<
    (Seq<char>, PathBuf),
>
    decreases depth, 2nat, rows.len(),
{
    if rows.len() == 0 {
        Seq::empty()
    } else {
        let row = rows.last();
        files_below(disk, rows.drop_last(), depth) + if row.kind is Folder {
            all_files(disk, row.path, depth)
        } else {
            seq![(row.name, row.path)]
        }
    }
}

/// The first `max` of some files.
pub open spec fn first_files(files: Seq<(Seq<char>, PathBuf)>, max: int) -> Seq<
    (Seq<char>, PathBuf),
> {
    if files.len() <= max {
        files
    } else {
        files.take(max)
    }
}

/// A listing that may hold so many more files holds the first of all there are, up to that many,
/// and says that files were left out if and only if there are more.
pub proof fn listings_hold_the_first_files(
    disk: Disk,
    folder: PathBuf,
    depth: nat,
    max_files: nat,
    count: nat,
)
    requires
        count <= max_files,
    ensures
        ({
            let listing = scan_of(disk, folder, depth, max_files, count, false);
            let all = all_files(disk, folder, depth);
            &&& files_of(listing.entries) == first_files(all, max_files - count)
            &&& listing.truncated == (all.len() > max_files - count)
            &&& listing.count == count + files_of(listing.entries).len()
            &&& listing.entries.len() == 0 <==> files_of(listing.entries).len() == 0
        }),
    decreases depth, 1nat, 0nat,
{
    if let Some(found) = disk(folder) {
        if depth > 0 {
            walks_hold_the_first_files(disk, rows(found), (depth - 1) as nat, max_files, count);
        }
    }
}

/// The same of the listing of some of the names of a folder.
proof fn walks_hold_the_first_files(
    disk: Disk,
    rows: Seq<FoundView>,
    depth: nat,
    max_files: nat,
    count: nat,
)
    requires
        count <= max_files,
    ensures
        ({
            let listing = walk(disk, rows, depth, max_files, count, false);
            let all = files_below(disk, rows, depth);
            &&& files_of(listing.entries) == first_files(all, max_files - count)
            &&& listing.truncated == (all.len() > max_files - count)
            &&& listing.count == count + files_of(listing.entries).len()
            &&& listing.entries.len() == 0 <==> files_of(listing.entries).len() == 0
        }),
    decreases depth, 2nat, rows.len(),
{
    if rows.len() > 0 {
        let rest = rows.drop_last();
        let row = rows.last();
        let room = max_files - count;
        walks_hold_the_first_files(disk, rest, depth, max_files, count);
        let before = walk(disk, rest, depth, max_files, count, false);
        let first = files_below(disk, rest, depth);
        let all = files_below(disk, rows, depth);
        let listing = walk(disk, rows, depth, max_files, count, false);
        if before.truncated {
            assert(all.take(room) =~= first.take(room));
        } else {
            if row.kind is Folder {
                listings_hold_the_first_files(disk, row.path, depth, max_files, before.count);
                let below = scan_of(disk, row.path, depth, max_files, before.count, false);
                let more = all_files(disk, row.path, depth);
                assert(all == first + more);
                if below.entries.len() == 0 {
                    assert(first_files(all, room) =~= first);
                } else {
                    assert(listing.entries.drop_last() =~= before.entries);
                    assert(first + first_files(more, room - first.len()) =~= first_files(all, room));
                }
            } else if before.count == max_files {
                assert(all.take(room) =~= first);
            } else {
                assert(listing.entries.drop_last() =~= before.entries);
                assert(first_files(all, room) =~= all);
            }
        }
    }
}

/// A listing that may hold fewer files holds the first of the files that a longer one holds, and
/// says that files were left out if and only if the longer one holds more.
pub proof fn shorter_listings_are_the_start_of_longer_ones(
    disk: Disk,
    folder: PathBuf,
    depth: nat,
    fewer: nat,
    more: nat,
)
    requires
        fewer < more,
    ensures
        ({
            let short = scan_of(disk, folder, depth, fewer, 0, false);
            let long = scan_of(disk, folder, depth, more, 0, false);
            &&& files_of(short.entries) == first_files(files_of(long.entries), fewer as int)
            &&& short.truncated == (files_of(long.entries).len() > fewer)
        }),
{
    listings_hold_the_first_files(disk, folder, depth, fewer, 0);
    listings_hold_the_first_files(disk, folder, depth, more, 0);
    let all = all_files(disk, folder, depth);
    assert(first_files(first_files(all, more as int), fewer as int) =~= first_files(
        all,
        fewer as int,
    ));
}

/// Looking for a text again in what was found finds all of it.
pub proof fn filtering_again_changes_nothing(entries: Seq<EntryView>, query: Seq<char>)
    ensures
        matching(matching(entries, query), query) == matching(entries, query),
    decreases entries,
{
    if entries.len() == 0 {
        assert(matching(entries, query) =~= Seq::<EntryView>::empty());
    } else {
        filtering_again_changes_nothing(entries.drop_last(), query);
        let entry = entries[entries.len() - 1];
        let before = matching(entries.drop_last(), query);
        let all = matching(entries, query);
        if let Some(children) = entry.children {
            filtering_again_changes_nothing(children, query);
        }
        if all.len() > before.len() {
            assert(all.drop_last() =~= before);
            assert(all[all.len() - 1] == all.last());
        }
    }
}

/// ASCII texts that differ only in the case of letters find the same.
pub proof fn case_does_not_matter(entries: Seq<EntryView>, query: Seq<char>, other: Seq<char>)
    requires
        is_ascii_text(query),
        is_ascii_text(other),
        lowered(other) == lowered(query),
    ensures
        matching(entries, lowercase(other)) == matching(entries, lowercase(query)),
{
}

/// A text that holds a part of which another is a part holds the other too.
proof fn holding_goes_on(text: Seq<char>, part: Seq<char>, inner: Seq<char>)
    requires
        holds(text, part),
        holds(part, inner),
    ensures
        holds(text, inner),
{
    let at = choose|at: int| 0 <= at && #[trigger] stands_at(text, at, part);
    let within = choose|at: int| 0 <= at && #[trigger] stands_at(part, at, inner);
    assert(text.subrange(at + within, at + within + inner.len()) =~= text.subrange(
        at,
        at + part.len(),
    ).subrange(within, within + inner.len()));
    assert(stands_at(text, at + within, inner));
}

/// What is found is among what is looked in.
pub proof fn found_files_are_listed(
    entries: Seq<EntryView>,
    query: Seq<char>,
    file: (Seq<char>, PathBuf),
)
    requires
        files_of(matching(entries, query)).contains(file),
    ensures
        files_of(entries).contains(file),
    decreases entries,
{
    if entries.len() > 0 {
        let entry = entries[entries.len() - 1];
        let before = matching(entries.drop_last(), query);
        let all = matching(entries, query);
        let own = match entry.children {
            Some(children) => files_of(children),
            None => seq![(entry.name, entry.path)],
        };
        if all.len() > before.len() {
            assert(all.drop_last() =~= before);
            let last = all[all.len() - 1];
            let kept = match last.children {
                Some(children) => files_of(children),
                None => seq![(last.name, last.path)],
            };
            assert(files_of(all) == files_of(before) + kept);
            in_either(files_of(before), kept, file);
            if kept.contains(file) {
                if !holds(lowercase(entry.name), query) {
                    found_files_are_listed(entry.children->0, query, file);
                }
                assert(own.contains(file));
            } else {
                found_files_are_listed(entries.drop_last(), query, file);
            }
        } else {
            assert(all =~= before);
            found_files_are_listed(entries.drop_last(), query, file);
        }
        in_either(files_of(entries.drop_last()), own, file);
    }
}

/// An item of two sequences one after the other is in one of them.
proof fn in_either<T>(a: Seq<T>, b: Seq<T>, item: T)
    ensures
        (a + b).contains(item) <==> a.contains(item) || b.contains(item),
{
    if a.contains(item) {
        let i = a.index_of(item);
        assert((a + b)[i] == item);
    }
    if b.contains(item) {
        let i = b.index_of(item);
        assert((a + b)[a.len() + i] == item);
    }
    if (a + b).contains(item) {
        let i = (a + b).index_of(item);
        if i < a.len() {
            assert(a[i] == item);
        } else {
            assert(b[i - a.len()] == item);
        }
    }
}

/// The files that a longer text finds, a part of it finds too.
pub proof fn longer_queries_find_no_more(
    entries: Seq<EntryView>,
    longer: Seq<char>,
    part: Seq<char>,
    file: (Seq<char>, PathBuf),
)
    requires
        holds(longer, part),
        files_of(matching(entries, longer)).contains(file),
    ensures
        files_of(matching(entries, part)).contains(file),
    decreases entries,
{
    if entries.len() > 0 {
        let rest = entries.drop_last();
        let entry = entries[entries.len() - 1];
        let name = lowercase(entry.name);
        if holds(name, longer) {
            holding_goes_on(name, longer, part);
        }
        let few_before = matching(rest, longer);
        let few = matching(entries, longer);
        let many_before = matching(rest, part);
        let many = matching(entries, part);
        let few_own = own_files(few, few_before);
        let many_own = own_files(many, many_before);
        assert(few.len() > few_before.len() ==> few.drop_last() =~= few_before);
        assert(many.len() > many_before.len() ==> many.drop_last() =~= many_before);
        grows(few, few_before);
        grows(many, many_before);
        in_either(files_of(few_before), few_own, file);
        if files_of(few_before).contains(file) {
            longer_queries_find_no_more(rest, longer, part, file);
        } else {
            assert(few_own.contains(file));
            assert(few.len() > few_before.len());
            if holds(name, longer) {
                assert(few.last() == entry && many.last() == entry);
            } else if holds(name, part) {
                found_files_are_listed(entry.children->0, longer, file);
            } else {
                longer_queries_find_no_more(entry.children->0, longer, part, file);
                let found = matching(entry.children->0, part);
                assert(found.len() > 0) by {
                    if found.len() == 0 {
                        assert(files_of(found) =~= Seq::<(Seq<char>, PathBuf)>::empty());
                    }
                }
            }
            assert(many_own.contains(file));
        }
        in_either(files_of(many_before), many_own, file);
    }
}

/// The files that the last of some entries adds to those before it.
spec fn own_files(all: Seq<EntryView>, before: Seq<EntryView>) -> Seq<(Seq<char>, PathBuf)> {
    if all.len() > before.len() {
        match all[all.len() - 1].children {
            Some(children) => files_of(children),
            None => seq![(all[all.len() - 1].name, all[all.len() - 1].path)],
        }
    } else {
        Seq::empty()
    }
}

/// Entries are those before the last and what it adds.
proof fn grows(all: Seq<EntryView>, before: Seq<EntryView>)
    requires
        all == before || (all.len() == before.len() + 1 && all.drop_last() =~= before),
    ensures
        files_of(all) == files_of(before) + own_files(all, before),
{
    if all == before {
        assert(files_of(before) + Seq::empty() =~= files_of(before));
    }
}

/// Names come in the order of their first characters that differ, and a name comes before a longer
/// one that starts with it.
pub proof fn names_are_ordered_by_their_characters(
    start: Seq<char>,
    c: char,
    d: char,
    one: Seq<char>,
    other: Seq<char>,
)
    ensures
        c != d ==> lex_less(start + seq![c] + one, start + seq![d] + other) == (c < d),
        lex_less(start, start + seq![c] + one),
        !lex_less(start + seq![c] + one, start),
        !lex_less(start, start),
    decreases start.len(),
{
    let first = start + seq![c] + one;
    let second = start + seq![d] + other;
    if start.len() > 0 {
        let rest = start.drop_first();
        names_are_ordered_by_their_characters(rest, c, d, one, other);
        assert(first.drop_first() =~= rest + seq![c] + one);
        assert(second.drop_first() =~= rest + seq![d] + other);
    }
}

/// A folder lists its folders before its files, each by name regardless of case, and the names
/// that are listed are those that are not hidden, of folders that are walked into and of Markdown
/// files.
pub proof fn folders_come_before_files(found: Seq<FoundView>, i: int, j: int)
    requires
        0 <= i < j < rows(found).len(),
    ensures
        ({
            let a = rows(found)[i];
            let b = rows(found)[j];
            &&& b.kind is Folder ==> a.kind is Folder
            &&& (a.kind is Folder) == (b.kind is Folder) ==> {
                &&& !lex_less(lowercase(b.name), lowercase(a.name))
                &&& lowercase(a.name) == lowercase(b.name) ==> !lex_less(b.name, a.name)
            }
        }),
{
    let kept = found.filter(|found: FoundView| is_listed(found));
    let leq = |a: FoundView, b: FoundView| Found::leq(a, b);
    Found::leq_is_order();
    sorting_orders(kept, leq);
    assert(in_order(rows(found), leq));
    let a = rows(found)[i];
    let b = rows(found)[j];
    assert(leq(a, b));
    lex_total(lowercase(a.name), lowercase(b.name));
}

/// Which names are listed.
pub proof fn listed_names_are_folders_and_markdown_files(found: FoundView)
    ensures
        is_listed(found) <==> {
            &&& found.name.len() == 0 || found.name[0] != '.'
            &&& {
                ||| found.kind == Kind::Folder && found.name != "node_modules"@ && found.name
                    != "target"@
                ||| found.kind == Kind::File && is_markdown_name(found.name)
            }
        },
{
}

/// What follows the last dot of a name.
proof fn endings_follow_the_dot(stem: Seq<char>, ending: Seq<char>)
    requires
        !ending.contains('.'),
    ensures
        crate::text::after_last(stem + seq!['.'] + ending, '.') == Some(ending),
    decreases ending.len(),
{
    let name = stem + seq!['.'] + ending;
    if ending.len() > 0 {
        let shorter = ending.drop_last();
        assert(ending.last() != '.') by {
            assert(ending[ending.len() - 1] == ending.last());
        }
        assert(!shorter.contains('.')) by {
            if shorter.contains('.') {
                let i = shorter.index_of('.');
                assert(ending[i] == '.');
            }
        }
        endings_follow_the_dot(stem, shorter);
        assert(name.drop_last() =~= stem + seq!['.'] + shorter);
        assert(shorter.push(ending.last()) =~= ending);
    } else {
        assert(name.last() == '.');
        assert(ending =~= Seq::<char>::empty());
    }
}

/// A name is that of a Markdown file if something, a dot and `md` or `markdown` make it, in any
/// case, and if another ending does it is not.
pub proof fn markdown_names_end_in_md(stem: Seq<char>, ending: Seq<char>)
    requires
        !ending.contains('.'),
    ensures
        is_markdown_name(stem + seq!['.'] + ending) <==> stem.len() > 0 && (lowered(ending)
            == "md"@ || lowered(ending) == "markdown"@),
{
    endings_follow_the_dot(stem, ending);
}

} // verus!
