//! The Markdown files of an opened folder and of the folders below it, as the sidebar lists
//! them.

use crate::sorting::{comes_before, sort, Ordered};
use crate::text::{
    chars_of, contains, lower_chars, same, same_chars, split_after_last, to_lowercase,
};
use std::cmp::Ordering;
use std::path::PathBuf;
use vstd::prelude::*;
use vstd::string::*;

verus! {

/// The most files a listing holds. A folder with more, a home folder opened by mistake, is
/// listed in part rather than walked for minutes.
pub const MAX_FILES: usize = 5000;

/// The most folders below one another a listing goes into: more than the longest path the
/// system takes has.
pub const MAX_DEPTH: usize = 4096;

/// A file or folder of a listing.
#[derive(Debug, PartialEq, Eq)]
pub struct Entry {
    pub name: String,
    pub path: PathBuf,
    /// What a folder holds, folders first; `None` for a file.
    pub children: Option<Vec<Entry>>,
}

/// The Markdown files below a folder.
#[derive(Debug, PartialEq, Eq)]
pub struct Listing {
    pub entries: Vec<Entry>,
    /// Files past the limit were left out.
    pub truncated: bool,
}

/// What a name in a folder stands for.
#[derive(Debug, Clone, Copy, PartialEq, Eq, Structural)]
pub enum Kind {
    /// A folder itself, not a link to one.
    Folder,
    /// A file, or a link to one.
    File,
    /// Anything else.
    Other,
}

/// One name in a folder, as the file system gives it.
#[derive(Debug)]
pub struct Found {
    pub name: String,
    pub path: PathBuf,
    pub kind: Kind,
}

/// An entry as contracts speak of it.
pub struct EntryView {
    pub name: Seq<char>,
    pub path: PathBuf,
    pub children: Option<Seq<EntryView>>,
}

/// A name in a folder as contracts speak of it.
pub struct FoundView {
    pub name: Seq<char>,
    pub path: PathBuf,
    pub kind: Kind,
}

impl View for Found {
    type V = FoundView;

    open spec fn view(&self) -> FoundView {
        FoundView { name: self.name@, path: self.path, kind: self.kind }
    }
}

impl Entry {
    /// The entry as contracts speak of it.
    pub open spec fn model(self) -> EntryView
        decreases self,
    {
        EntryView {
            name: self.name@,
            path: self.path,
            children: match self.children {
                Some(children) => Some(
                    Seq::new(
                        children@.len(),
                        |i: int|
                            if 0 <= i < children@.len() {
                                children@[i].model()
                            } else {
                                arbitrary()
                            },
                    ),
                ),
                None => None,
            },
        }
    }
}

/// Entries as contracts speak of them.
pub open spec fn models(entries: Seq<Entry>) -> Seq<EntryView> {
    entries.map_values(|entry: Entry| entry.model())
}

/// The folders never walked into besides hidden ones: what package managers and build tools
/// fill with files nobody writes by hand.
pub open spec fn is_skipped(name: Seq<char>) -> bool {
    name == "node_modules"@ || name == "target"@
}

/// The part of a file name after its last dot; `None` where there is no dot after the first
/// character.
pub open spec fn extension(name: Seq<char>) -> Option<Seq<char>> {
    match crate::text::after_last(name, '.') {
        Some(extension) if extension.len() + 1 < name.len() => Some(extension),
        _ => None,
    }
}

/// Whether a file name is that of a Markdown file.
pub open spec fn is_markdown_name(name: Seq<char>) -> bool {
    match extension(name) {
        Some(extension) => crate::text::lowered(extension) == "md"@ || crate::text::lowered(
            extension,
        ) == "markdown"@,
        None => false,
    }
}

/// Whether a file name is that of a Markdown file.
pub fn is_markdown(name: &str) -> (markdown: bool)
    ensures
        markdown == is_markdown_name(name@),
{
    let chars = chars_of(name);
    match split_after_last(&chars, '.') {
        Some(extension) => {
            if extension.len() >= chars.len() || extension.len() == chars.len() - 1 {
                return false;
            }
            let lower = lower_chars(&extension);
            let md = chars_of("md");
            let markdown = chars_of("markdown");
            same_chars(&lower, &md) || same_chars(&lower, &markdown)
        },
        None => false,
    }
}

/// Whether a name is listed, if it leads anywhere.
pub open spec fn is_listed(found: FoundView) -> bool {
    !(found.name.len() > 0 && found.name[0] == '.') && match found.kind {
        Kind::Folder => !is_skipped(found.name),
        Kind::File => is_markdown_name(found.name),
        Kind::Other => false,
    }
}

/// Whether a name is listed, if it leads anywhere.
fn listed(found: &Found) -> (kept: bool)
    ensures
        kept == is_listed(found@),
{
    let first = chars_of(found.name.as_str());
    if first.len() > 0 && first[0] == '.' {
        return false;
    }
    match found.kind {
        Kind::Folder => !same(found.name.as_str(), "node_modules") && !same(
            found.name.as_str(),
            "target",
        ),
        Kind::File => is_markdown(found.name.as_str()),
        Kind::Other => false,
    }
}

/// Whether one name is listed before another: folders before files, each by name regardless
/// of case.
pub open spec fn listed_before(a: FoundView, b: FoundView) -> bool {
    let lower_a = crate::text::lowercase(a.name);
    let lower_b = crate::text::lowercase(b.name);
    if (a.kind is Folder) != (b.kind is Folder) {
        a.kind is Folder
    } else if lower_a != lower_b {
        crate::sorting::lex_less(lower_a, lower_b)
    } else {
        crate::sorting::lex_less(a.name, b.name)
    }
}

/// Folders before files, each by name regardless of case.
pub fn order(a: &str, a_is_folder: bool, b: &str, b_is_folder: bool) -> (found: Ordering)
    ensures
        ({
            let first = |name: Seq<char>, is_folder: bool| FoundView {
                name,
                path: arbitrary(),
                kind: if is_folder {
                    Kind::Folder
                } else {
                    Kind::File
                },
            };
            &&& found is Less <==> listed_before(first(a@, a_is_folder), first(b@, b_is_folder))
            &&& found is Greater <==> listed_before(first(b@, b_is_folder), first(a@, a_is_folder))
            &&& found is Equal <==> a@ == b@ && a_is_folder == b_is_folder
        }),
{
    if a_is_folder != b_is_folder {
        return if a_is_folder {
            Ordering::Less
        } else {
            Ordering::Greater
        };
    }
    let lower_a = chars_of(to_lowercase(a).as_str());
    let lower_b = chars_of(to_lowercase(b).as_str());
    let a = chars_of(a);
    let b = chars_of(b);
    proof {
        crate::sorting::lex_total(lower_a@, lower_b@);
        crate::sorting::lex_total(a@, b@);
    }
    if comes_before(&lower_a, &lower_b) {
        Ordering::Less
    } else if comes_before(&lower_b, &lower_a) {
        Ordering::Greater
    } else if comes_before(&a, &b) {
        Ordering::Less
    } else if comes_before(&b, &a) {
        Ordering::Greater
    } else {
        Ordering::Equal
    }
}

impl Ordered for Found {
    open spec fn leq(a: FoundView, b: FoundView) -> bool {
        !listed_before(b, a)
    }

    proof fn leq_is_order() {
        let leq = |a: FoundView, b: FoundView| Self::leq(a, b);
        assert forall|a: FoundView, b: FoundView| #[trigger] leq(a, b) || leq(b, a) by {
            crate::sorting::lex_total(
                crate::text::lowercase(a.name),
                crate::text::lowercase(b.name),
            );
            crate::sorting::lex_total(a.name, b.name);
        }
        assert forall|a: FoundView, b: FoundView, c: FoundView| #[trigger]
            leq(a, b) && #[trigger] leq(b, c) implies leq(a, c) by {
            let la = crate::text::lowercase(a.name);
            let lb = crate::text::lowercase(b.name);
            let lc = crate::text::lowercase(c.name);
            lex_not_less_transitive(la, lb, lc);
            lex_not_less_transitive(a.name, b.name, c.name);
            crate::sorting::lex_total(la, lb);
            crate::sorting::lex_total(lb, lc);
            crate::sorting::lex_total(la, lc);
        }
    }

    fn precedes(&self, other: &Self) -> (found: bool) {
        match order(
            other.name.as_str(),
            is_folder(other),
            self.name.as_str(),
            is_folder(self),
        ) {
            Ordering::Less => false,
            _ => true,
        }
    }
}

/// Whether a name stands for a folder.
fn is_folder(found: &Found) -> (folder: bool)
    ensures
        folder == (found.kind is Folder),
{
    match found.kind {
        Kind::Folder => true,
        _ => false,
    }
}

/// A text that does not come after a second, which does not come after a third, does not
/// come after the third.
proof fn lex_not_less_transitive(a: Seq<char>, b: Seq<char>, c: Seq<char>)
    ensures
        !crate::sorting::lex_less(b, a) && !crate::sorting::lex_less(c, b) ==> !crate::sorting::lex_less(
            c,
            a,
        ),
{
    crate::sorting::lex_total(a, b);
    crate::sorting::lex_total(b, c);
    crate::sorting::lex_total(a, c);
    if crate::sorting::lex_less(a, b) && crate::sorting::lex_less(b, c) {
        crate::sorting::lex_transitive(a, b, c);
    }
}

/// The names of a folder that are listed, in their order.
pub open spec fn rows(found: Seq<FoundView>) -> Seq<FoundView> {
    crate::sorting::sorted(
        found.filter(|found: FoundView| is_listed(found)),
        |a: FoundView, b: FoundView| Found::leq(a, b),
    )
}

/// A listing under way: the entries so far, how many files there are, and whether files
/// were left out.
pub struct ScanView {
    pub entries: Seq<EntryView>,
    pub count: nat,
    pub truncated: bool,
}

/// What the folders of a disk hold; `None` for one that cannot be read.
pub type Disk = spec_fn(PathBuf) -> Option<Seq<FoundView>>;

/// The listing of a folder of `disk` and of the folders below it, `depth` deep at most,
/// once `count` files are listed.
pub open spec fn scan_of(
    disk: Disk,
    folder: PathBuf,
    depth: nat,
    max_files: nat,
    count: nat,
    truncated: bool,
) -> ScanView
    decreases depth, 1nat, 0nat,
{
    match disk(folder) {
        Some(found) if depth > 0 => walk(
            disk,
            rows(found),
            (depth - 1) as nat,
            max_files,
            count,
            truncated,
        ),
        _ => ScanView { entries: Seq::empty(), count, truncated },
    }
}

/// The listing of the given names of a folder.
pub open spec fn walk(
    disk: Disk,
    rows: Seq<FoundView>,
    depth: nat,
    max_files: nat,
    count: nat,
    truncated: bool,
) -> ScanView
    decreases depth, 2nat, rows.len(),
{
    if rows.len() == 0 {
        ScanView { entries: Seq::empty(), count, truncated }
    } else {
        let before = walk(disk, rows.drop_last(), depth, max_files, count, truncated);
        let row = rows.last();
        if before.truncated {
            before
        } else if row.kind is Folder {
            let below = scan_of(disk, row.path, depth, max_files, before.count, false);
            ScanView {
                entries: if below.entries.len() == 0 {
                    before.entries
                } else {
                    before.entries.push(
                        EntryView {
                            name: row.name,
                            path: row.path,
                            children: Some(below.entries),
                        },
                    )
                },
                count: below.count,
                truncated: below.truncated,
            }
        } else if before.count == max_files {
            ScanView { truncated: true, ..before }
        } else {
            ScanView {
                entries: before.entries.push(
                    EntryView { name: row.name, path: row.path, children: None },
                ),
                count: before.count + 1,
                truncated: false,
            }
        }
    }
}

/// What was read of a folder, as contracts speak of it.
pub open spec fn read_views(found: Option<Vec<Found>>) -> Option<Seq<FoundView>> {
    match found {
        Some(found) => Some(crate::sorting::views_of(found@)),
        None => None,
    }
}

/// Whether all that `read` may give for a folder is what `disk` holds.
pub open spec fn reads<R: Fn(&PathBuf) -> Option<Vec<Found>>>(read: R, disk: Disk) -> bool {
    forall|folder: &PathBuf, found: Option<Vec<Found>>| #[trigger]
        read.ensures((folder,), found) ==> read_views(found) == disk(*folder)
}

/// The names of a folder that are listed, in their order.
fn listed_rows(found: Vec<Found>) -> (kept: Vec<Found>)
    ensures
        crate::sorting::views_of(kept@) == rows(crate::sorting::views_of(found@)),
{
    let mut reversed: Vec<Found> = Vec::new();
    let mut rest = found;
    let ghost all = crate::sorting::views_of(rest@);
    let ghost keep = |found: FoundView| is_listed(found);
    proof {
        assert(all.skip(all.len() as int).filter(keep) =~= Seq::<FoundView>::empty());
        assert(crate::sorting::views_of(reversed@) =~= Seq::<FoundView>::empty().reverse());
    }
    while rest.len() > 0
        invariant
            rest@.len() <= all.len(),
            keep == (|found: FoundView| is_listed(found)),
            crate::sorting::views_of(rest@) == all.take(rest@.len() as int),
            crate::sorting::views_of(reversed@) == all.skip(rest@.len() as int).filter(
                keep,
            ).reverse(),
        decreases rest@.len(),
    {
        let ghost at = rest@.len() as int;
        match rest.pop() {
            Some(item) => {
                proof {
                    assert(crate::sorting::views_of(rest@) =~= all.take(at - 1));
                    assert(all.take(at)[at - 1] == item@);
                    assert(all.skip(at - 1) =~= seq![item@] + all.skip(at));
                    filter_first(item@, all.skip(at), keep);
                }
                if listed(&item) {
                    proof {
                        assert(crate::sorting::views_of(reversed@.push(item))
                            =~= crate::sorting::views_of(reversed@).push(item@));
                        assert((seq![item@] + all.skip(at).filter(keep)).reverse() =~= all.skip(
                            at,
                        ).filter(keep).reverse().push(item@));
                    }
                    reversed.push(item);
                } else {
                    proof {
                        assert(Seq::<FoundView>::empty() + all.skip(at).filter(keep) =~= all.skip(
                            at,
                        ).filter(keep));
                    }
                }
            },
            None => {},
        }
    }
    proof {
        assert(all.skip(0) =~= all);
    }
    let ghost wanted = all.filter(keep);
    let mut kept: Vec<Found> = Vec::new();
    while reversed.len() > 0
        invariant
            reversed@.len() + kept@.len() == wanted.len(),
            crate::sorting::views_of(reversed@) == wanted.skip(kept@.len() as int).reverse(),
            crate::sorting::views_of(kept@) == wanted.take(kept@.len() as int),
        decreases reversed@.len(),
    {
        let ghost done = kept@.len() as int;
        let ghost was = crate::sorting::views_of(reversed@);
        match reversed.pop() {
            Some(item) => {
                proof {
                    let last = reversed@.len() as int;
                    assert(wanted.skip(done).reverse()[last] == item@);
                    assert(crate::sorting::views_of(reversed@) =~= was.drop_last());
                    assert(was.drop_last() =~= wanted.skip(done + 1).reverse());
                    assert(crate::sorting::views_of(kept@.push(item)) =~= wanted.take(done + 1));
                }
                kept.push(item);
            },
            None => {},
        }
    }
    proof {
        assert(wanted.take(wanted.len() as int) =~= wanted);
    }
    sort(kept)
}

/// Filtering keeps or drops the first item by itself.
proof fn filter_first<A>(first: A, rest: Seq<A>, keep: spec_fn(A) -> bool)
    ensures
        (seq![first] + rest).filter(keep) == (if keep(first) {
            seq![first]
        } else {
            Seq::empty()
        }) + rest.filter(keep),
    decreases rest.len(),
{
    reveal(Seq::filter);
    if rest.len() == 0 {
        assert(seq![first] + rest =~= seq![first]);
        assert(seq![first].drop_last() =~= Seq::<A>::empty());
        assert(rest.filter(keep) =~= Seq::<A>::empty());
        assert(seq![first].drop_last().filter(keep) =~= Seq::<A>::empty());
    } else {
        let all = seq![first] + rest;
        assert(all.drop_last() =~= seq![first] + rest.drop_last());
        filter_first(first, rest.drop_last(), keep);
        assert(all.last() == rest.last());
    }
}

/// The Markdown files in `root` and below it, and the folders that lead to them. Hidden
/// files and folders are left out, and so are folders reached through a symbolic link, which
/// could lead back up; a link to a file is listed. `read` gives the names of a folder, or
/// `None` for one that cannot be read, which is passed over. Whatever it gives, and be it not the
/// same twice, the listing is tidy and holds no more files than it may.
pub fn scan<R: Fn(&PathBuf) -> Option<Vec<Found>>>(
    read: R,
    root: &PathBuf,
    max_files: usize,
) -> (listing: Listing)
    requires
        forall|folder: &PathBuf| #[trigger] read.requires((folder,)),
    ensures
        forall|disk: Disk| #[trigger]
            reads(read, disk) ==> {
                let found = scan_of(
                    disk,
                    *root,
                    MAX_DEPTH as nat,
                    max_files as nat,
                    0,
                    false,
                );
                models(listing.entries@) == found.entries && listing.truncated == found.truncated
            },
        is_tidy(models(listing.entries@)),
        files_in(models(listing.entries@)) <= max_files,
        listing.truncated ==> files_in(models(listing.entries@)) == max_files,
{
    let mut count: usize = 0;
    let mut truncated = false;
    let entries = scan_folder(&read, root, MAX_DEPTH, max_files, &mut count, &mut truncated);
    Listing { entries, truncated }
}

/// The listing of a folder and of the folders below it, `depth` deep at most, once `count`
/// files are listed.
fn scan_folder<R: Fn(&PathBuf) -> Option<Vec<Found>>>(
    read: &R,
    folder: &PathBuf,
    depth: usize,
    max_files: usize,
    count: &mut usize,
    truncated: &mut bool,
) -> (entries: Vec<Entry>)
    requires
        forall|folder: &PathBuf| #[trigger] read.requires((folder,)),
        *old(count) <= max_files,
    ensures
        *final(count) <= max_files,
        is_tidy(models(entries@)),
        *final(count) == *old(count) + files_in(models(entries@)),
        *final(truncated) && !*old(truncated) ==> *final(count) == max_files,
        forall|disk: Disk| #[trigger]
            reads(*read, disk) ==> {
                let found = scan_of(
                    disk,
                    *folder,
                    depth as nat,
                    max_files as nat,
                    *old(count) as nat,
                    *old(truncated),
                );
                models(entries@) == found.entries && *final(count) == found.count
                    && *final(truncated) == found.truncated
            },
    decreases depth,
{
    let mut entries: Vec<Entry> = Vec::new();
    proof {
        assert(models(entries@) =~= Seq::<EntryView>::empty());
    }
    if depth == 0 {
        return entries;
    }
    let found = match read(folder) {
        Some(found) => found,
        None => {
            return entries;
        },
    };
    let ghost names = crate::sorting::views_of(found@);
    let kept = listed_rows(found);
    let ghost all = rows(names);
    proof {
        rows_are_listed(names);
    }
    let ghost count_before = *count as nat;
    let ghost truncated_before = *truncated;
    for i in 0..kept.len()
        invariant
            0 < depth,
            forall|folder: &PathBuf| #[trigger] read.requires((folder,)),
            *count <= max_files,
            crate::sorting::views_of(kept@) == all,
            forall|j: int| 0 <= j < all.len() ==> is_listed(#[trigger] all[j]),
            is_tidy(models(entries@)),
            *count == count_before + files_in(models(entries@)),
            *truncated && !truncated_before ==> *count == max_files,
            forall|disk: Disk| #[trigger]
                reads(*read, disk) ==> {
                    let so_far = walk(
                        disk,
                        all.take(i as int),
                        (depth - 1) as nat,
                        max_files as nat,
                        count_before,
                        truncated_before,
                    );
                    models(entries@) == so_far.entries && *count == so_far.count && *truncated
                        == so_far.truncated
                },
    {
        let row = &kept[i];
        let ghost before = entries@;
        let ghost count_then = *count as nat;
        proof {
            assert(all.take(i + 1).drop_last() =~= all.take(i as int));
            assert(all.take(i + 1).last() == row@);
            assert(is_listed(all[i as int]));
        }
        if !*truncated {
            match row.kind {
                Kind::Folder => {
                    let children = scan_folder(
                        read,
                        &row.path,
                        depth - 1,
                        max_files,
                        count,
                        truncated,
                    );
                    if children.len() > 0 {
                        let entry = Entry {
                            name: row.name.clone(),
                            path: row.path.clone(),
                            children: Some(children),
                        };
                        proof {
                            assert(entry.model().children->0 =~= models(children@));
                            assert(models(before.push(entry)) =~= models(before).push(
                                entry.model(),
                            ));
                            assert(models(before).push(entry.model()).drop_last() =~= models(
                                before,
                            ));
                        }
                        entries.push(entry);
                    }
                },
                _ => {
                    if *count == max_files {
                        *truncated = true;
                    } else {
                        *count = *count + 1;
                        let entry = Entry {
                            name: row.name.clone(),
                            path: row.path.clone(),
                            children: None,
                        };
                        proof {
                            assert(models(before.push(entry)) =~= models(before).push(
                                entry.model(),
                            ));
                            assert(models(before).push(entry.model()).drop_last() =~= models(
                                before,
                            ));
                        }
                        entries.push(entry);
                    }
                },
            }
        }
    }
    proof {
        assert(all.take(all.len() as int) =~= all);
    }
    entries
}

/// The files of `entries` whose names hold `query`, ignoring case, with the folders that
/// lead to them. A folder whose own name holds it keeps all it has. `query` is in lower case.
pub open spec fn matching(entries: Seq<EntryView>, query: Seq<char>) -> Seq<EntryView>
    decreases entries,
{
    if entries.len() == 0 {
        Seq::empty()
    } else {
        let before = matching(entries.drop_last(), query);
        let entry = entries[entries.len() - 1];
        if crate::text::holds(crate::text::lowercase(entry.name), query) {
            before.push(entry)
        } else {
            match entry.children {
                Some(children) => {
                    let kept = matching(children, query);
                    if kept.len() == 0 {
                        before
                    } else {
                        before.push(EntryView { children: Some(kept), ..entry })
                    }
                },
                None => before,
            }
        }
    }
}

/// The files of `entries` whose names hold `query`, ignoring case, with the folders that
/// lead to them. A folder whose own name holds it keeps all it has. The query in lower case keeps
/// the same.
pub fn filter(entries: &Vec<Entry>, query: &str) -> (kept: Vec<Entry>)
    ensures
        models(kept@) == matching(models(entries@), crate::text::lowercase(query@)),
        models(kept@) == matching(
            models(entries@),
            crate::text::lowercase(crate::text::lowercase(query@)),
        ),
        query@.len() == 0 ==> models(kept@) == models(entries@),
{
    let query = to_lowercase(query);
    let kept = filter_lowercase(entries, query.as_str());
    proof {
        if query@.len() == 0 {
            nothing_filters_nothing(models(entries@), query@);
        }
    }
    kept
}

/// [`filter`] by a query in lower case.
pub fn filter_lowercase(entries: &Vec<Entry>, query: &str) -> (kept: Vec<Entry>)
    ensures
        models(kept@) == matching(models(entries@), query@),
    decreases entries,
{
    let chars = chars_of(query);
    let mut kept: Vec<Entry> = Vec::new();
    for i in 0..entries.len()
        invariant
            chars@ == query@,
            models(kept@) == matching(models(entries@).take(i as int), query@),
        decreases entries.len() - i,
    {
        let entry = &entries[i];
        let lower = to_lowercase(entry.name.as_str());
        let ghost before = kept@;
        proof {
            assert(models(entries@).take(i + 1).drop_last() =~= models(entries@).take(i as int));
            assert(models(entries@).take(i + 1)[i as int] == entry.model());
        }
        if contains(&chars_of(lower.as_str()), &chars) {
            let copy = copy_entry(entry);
            proof {
                assert(models(before.push(copy)) =~= models(before).push(copy.model()));
            }
            kept.push(copy);
        } else {
            match &entry.children {
                Some(children) => {
                    let found = filter_lowercase(children, query);
                    proof {
                        assert(entry.model().children->0 =~= models(children@));
                    }
                    if found.len() > 0 {
                        let copy = Entry {
                            name: entry.name.clone(),
                            path: entry.path.clone(),
                            children: Some(found),
                        };
                        proof {
                            assert(copy.model().children->0 =~= models(found@));
                            assert(models(before.push(copy)) =~= models(before).push(
                                copy.model(),
                            ));
                        }
                        kept.push(copy);
                    }
                },
                None => {},
            }
        }
    }
    proof {
        assert(models(entries@).take(entries@.len() as int) =~= models(entries@));
    }
    kept
}

/// Copies of entries and all they hold.
pub fn copy_entries(entries: &Vec<Entry>) -> (copies: Vec<Entry>)
    ensures
        models(copies@) == models(entries@),
    decreases entries,
{
    let mut copies: Vec<Entry> = Vec::new();
    for i in 0..entries.len()
        invariant
            models(copies@) == models(entries@).take(i as int),
        decreases entries.len() - i,
    {
        let entry = &entries[i];
        let children = match &entry.children {
            Some(children) => Some(copy_entries(children)),
            None => None,
        };
        let copy = Entry { name: entry.name.clone(), path: entry.path.clone(), children };
        proof {
            if entry.children is Some {
                assert(entry.model().children->0 =~= models(entry.children->0@));
                assert(copy.model().children->0 =~= models(copy.children->0@));
            }
            assert(copy.model() == entry.model());
            assert(models(copies@.push(copy)) =~= models(copies@).push(copy.model()));
            assert(models(entries@).take(i + 1) =~= models(entries@).take(i as int).push(
                entry.model(),
            ));
        }
        copies.push(copy);
    }
    proof {
        assert(models(entries@).take(entries@.len() as int) =~= models(entries@));
    }
    copies
}

/// A copy of an entry and all it holds.
pub fn copy_entry(entry: &Entry) -> (copy: Entry)
    ensures
        copy.model() == entry.model(),
{
    let children = match &entry.children {
        Some(children) => Some(copy_entries(children)),
        None => None,
    };
    let copy = Entry { name: entry.name.clone(), path: entry.path.clone(), children };
    proof {
        if entry.children is Some {
            assert(entry.model().children->0 =~= models(entry.children->0@));
            assert(copy.model().children->0 =~= models(copy.children->0@));
        }
    }
    copy
}

/// A query that is empty keeps every entry.
pub proof fn nothing_filters_nothing(entries: Seq<EntryView>, query: Seq<char>)
    requires
        query.len() == 0,
    ensures
        matching(entries, query) == entries,
    decreases entries.len(),
{
    if entries.len() == 0 {
        assert(matching(entries, query) =~= entries);
    } else {
        nothing_filters_nothing(entries.drop_last(), query);
        let name = crate::text::lowercase(entries.last().name);
        assert(name.subrange(0, 0) =~= query);
        assert(crate::text::stands_at(name, 0, query));
        assert(entries.drop_last().push(entries.last()) =~= entries);
    }
}

/// How many files there are among `entries` and below them.
pub open spec fn files_in(entries: Seq<EntryView>) -> nat
    decreases entries,
{
    if entries.len() == 0 {
        0
    } else {
        files_in(entries.drop_last()) + match entries[entries.len() - 1].children {
            Some(children) => files_in(children),
            None => 1,
        }
    }
}

/// Whether `entries` hold nothing hidden, no file but Markdown files, no folder that is never
/// walked into and none without files.
pub open spec fn is_tidy(entries: Seq<EntryView>) -> bool
    decreases entries,
{
    entries.len() == 0 || {
        let entry = entries[entries.len() - 1];
        &&& is_tidy(entries.drop_last())
        &&& !(entry.name.len() > 0 && entry.name[0] == '.')
        &&& match entry.children {
            Some(children) => children.len() > 0 && is_tidy(children) && !is_skipped(entry.name),
            None => is_markdown_name(entry.name),
        }
    }
}

/// The names of a folder that are listed are those that may be.
proof fn rows_are_listed(found: Seq<FoundView>)
    ensures
        forall|i: int| 0 <= i < rows(found).len() ==> is_listed(#[trigger] rows(found)[i]),
{
    let kept = found.filter(|found: FoundView| is_listed(found));
    let leq = |a: FoundView, b: FoundView| Found::leq(a, b);
    Found::leq_is_order();
    crate::sorting::sorting_orders(kept, leq);
    assert forall|i: int| 0 <= i < rows(found).len() implies is_listed(
        #[trigger] rows(found)[i],
    ) by {
        let row = rows(found)[i];
        broadcast use vstd::seq_lib::group_to_multiset_ensures;

        assert(rows(found).contains(row));
        assert(kept.to_multiset().count(row) > 0);
        assert(kept.contains(row));
        broadcast use vstd::seq_lib::group_filter_ensures;

    }
}

/// A listing holds at most the files it may, as many as it counts, and leaves files out only
/// once it is full; and it holds nothing hidden, only Markdown files, and only folders that
/// lead to one.
pub proof fn listings_are_tidy_and_bounded(
    disk: Disk,
    folder: PathBuf,
    depth: nat,
    max_files: nat,
    count: nat,
)
    requires
        count <= max_files,
    ensures
        ({
            let listing = scan_of(disk, folder, depth, max_files, count, false);
            &&& is_tidy(listing.entries)
            &&& listing.count == count + files_in(listing.entries)
            &&& listing.count <= max_files
            &&& listing.truncated ==> listing.count == max_files
        }),
    decreases depth, 1nat, 0nat,
{
    if let Some(found) = disk(folder) {
        if depth > 0 {
            rows_are_listed(found);
            walks_are_tidy_and_bounded(disk, rows(found), (depth - 1) as nat, max_files, count);
        }
    }
}

/// The same of the listing of some of the names of a folder.
proof fn walks_are_tidy_and_bounded(
    disk: Disk,
    rows: Seq<FoundView>,
    depth: nat,
    max_files: nat,
    count: nat,
)
    requires
        count <= max_files,
        forall|i: int| 0 <= i < rows.len() ==> is_listed(#[trigger] rows[i]),
    ensures
        ({
            let listing = walk(disk, rows, depth, max_files, count, false);
            &&& is_tidy(listing.entries)
            &&& listing.count == count + files_in(listing.entries)
            &&& listing.count <= max_files
            &&& listing.truncated ==> listing.count == max_files
        }),
    decreases depth, 2nat, rows.len(),
{
    if rows.len() > 0 {
        let rest = rows.drop_last();
        assert forall|i: int| 0 <= i < rest.len() implies is_listed(#[trigger] rest[i]) by {
            assert(is_listed(rows[i]));
        }
        walks_are_tidy_and_bounded(disk, rest, depth, max_files, count);
        let before = walk(disk, rest, depth, max_files, count, false);
        let row = rows.last();
        assert(is_listed(rows[rows.len() - 1]));
        listings_are_tidy_and_bounded(disk, row.path, depth, max_files, before.count);
        let listing = walk(disk, rows, depth, max_files, count, false);
        if listing.entries.len() > before.entries.len() {
            assert(listing.entries.drop_last() =~= before.entries);
        }
    }
}

}
