//! The application: where new and opened documents go.

use crate::document::{Document, File, Input};
use vstd::prelude::*;

verus! {

/// Where a file goes.
#[derive(Clone, Copy, Debug, PartialEq, Eq, Structural)]
pub enum Target {
    /// To the document that holds it already, by its number.
    Open(usize),
    /// Into a blank document, by its number.
    Blank(usize),
    /// Into a new document.
    New,
}

/// The first document from `n` on that holds `file`, or the file at `canonical`.
pub open spec fn holder(
    documents: Seq<Document>,
    file: Option<File>,
    canonical: Option<u64>,
    n: int,
) -> Option<int>
    decreases documents.len() - n,
{
    if n < 0 || n >= documents.len() {
        None
    } else if holds_file(documents[n], file, canonical) {
        Some(n)
    } else {
        holder(documents, file, canonical, n + 1)
    }
}

/// Whether a document holds `file`, or the file at `canonical`.
pub open spec fn holds_file(document: Document, file: Option<File>, canonical: Option<u64>) -> bool {
    (file is Some && document.has(file->0)) || (canonical is Some && document.canonical
        == canonical)
}

/// Where a file, or the file at `canonical`, goes that is opened in a window whose selected
/// document is the one numbered `selected`.
pub open spec fn target_of(
    documents: Seq<Document>,
    file: Option<File>,
    canonical: Option<u64>,
    selected: Option<usize>,
) -> Target {
    match holder(documents, file, canonical, 0) {
        Some(n) => Target::Open(n as usize),
        None => match selected {
            Some(n) if n < documents.len() && documents[n as int].blank() => Target::Blank(n),
            _ => Target::New,
        },
    }
}

/// The first document that holds `file`, or the file at the resolved path `canonical`.
fn find_holder(documents: &Vec<Document>, file: Option<File>, canonical: Option<u64>) -> (found:
    Option<usize>)
    ensures
        match found {
            Some(n) => holder(documents@, file, canonical, 0) == Some(n as int) && n
                < documents@.len(),
            None => holder(documents@, file, canonical, 0) is None,
        },
{
    let mut n: usize = 0;
    while n < documents.len()
        invariant
            n <= documents@.len(),
            holder(documents@, file, canonical, 0) == holder(
                documents@,
                file,
                canonical,
                n as int,
            ),
        decreases documents.len() - n,
    {
        if documents[n].holds_either(file, canonical) {
            return Some(n);
        }
        n = n + 1;
    }
    None
}

/// Where a file goes that is opened in a window: where it is open already, otherwise into the
/// selected document of the window if that is blank, otherwise into a new document.
pub fn open_target(documents: &Vec<Document>, file: File, selected: Option<usize>) -> (target:
    Target)
    ensures
        target == target_of(documents@, Some(file), None, selected),
{
    restore_target(documents, Some(file), None, selected)
}

/// Where a backup goes: into the document of its file when it is open already, so the file is
/// not open twice, otherwise into the selected document of the window if that is blank,
/// otherwise into a new document.
pub fn restore_target(
    documents: &Vec<Document>,
    file: Option<File>,
    canonical: Option<u64>,
    selected: Option<usize>,
) -> (target: Target)
    ensures
        target == target_of(documents@, file, canonical, selected),
{
    if let Some(n) = find_holder(documents, file, canonical) {
        return Target::Open(n);
    }
    match selected {
        Some(n) => if n < documents.len() && documents[n].is_blank() {
            Target::Blank(n)
        } else {
            Target::New
        },
        None => Target::New,
    }
}

/// Whether a new document is a tab of the window it is made from, rather than in a window of
/// its own.
pub fn opens_in_tab(has_window: bool, open_in_tabs: bool) -> (tab: bool)
    ensures
        tab == (has_window && open_in_tabs),
{
    has_window && open_in_tabs
}

/// Whether another document than the one numbered `this` holds `file`, or the file at
/// `canonical`.
pub open spec fn is_elsewhere(
    documents: Seq<Document>,
    this: int,
    file: Option<File>,
    canonical: Option<u64>,
) -> bool {
    exists|n: int|
        0 <= n < documents.len() && n != this && holds_file(
            #[trigger] documents[n],
            file,
            canonical,
        )
}

/// Whether another document than the one numbered `this` holds `file`, or the file at the
/// resolved path `canonical`.
pub fn document_elsewhere(
    documents: &Vec<Document>,
    this: usize,
    file: Option<File>,
    canonical: Option<u64>,
) -> (elsewhere: bool)
    ensures
        elsewhere == is_elsewhere(documents@, this as int, file, canonical),
{
    for n in 0..documents.len()
        invariant
            forall|i: int|
                0 <= i < n && i != this ==> !holds_file(#[trigger] documents@[i], file, canonical),
    {
        if n != this && documents[n].holds_either(file, canonical) {
            proof {
                assert(holds_file(documents@[n as int], file, canonical));
            }
            return true;
        }
    }
    false
}

/// Whether no file is held by two documents.
pub open spec fn held_once(documents: Seq<Document>) -> bool {
    forall|i: int, j: int, file: File|
        0 <= i < j < documents.len() && #[trigger] documents[i].has(file)
            ==> !(#[trigger] documents[j].has(file))
}

/// Whether every file on its way in has its document kept for it.
pub open spec fn claims_are_kept(documents: Seq<Document>) -> bool {
    forall|i: int|
        0 <= i < documents.len() ==> ((#[trigger] documents[i]).claimed is Some
            ==> documents[i].reserved)
}

/// A document kept for a file.
pub open spec fn kept_for(document: Document, file: File, made: bool) -> Document {
    Document { made_for_file: made, reserved: true, claimed: Some(file), ..document }
}

/// The documents once `file` is opened in a window whose selected document is the one numbered
/// `selected`.
pub open spec fn after_opening(documents: Seq<Document>, file: File, selected: Option<usize>) -> Seq<
    Document,
> {
    match target_of(documents, Some(file), None, selected) {
        Target::Open(_) => documents,
        Target::Blank(n) => documents.update(n as int, kept_for(documents[n as int], file, false)),
        Target::New => documents.push(kept_for(Document::fresh(), file, true)),
    }
}

/// Where a file is looked for and not found, no document holds it.
proof fn not_held(documents: Seq<Document>, file: Option<File>, canonical: Option<u64>, n: int)
    requires
        0 <= n,
        holder(documents, file, canonical, n) is None,
    ensures
        forall|i: int|
            n <= i < documents.len() ==> !holds_file(#[trigger] documents[i], file, canonical),
    decreases documents.len() - n,
{
    if n < documents.len() {
        not_held(documents, file, canonical, n + 1);
    }
}

/// A file that is opened is in one document afterwards, wherever it is opened from, and no other
/// file comes to be in two.
pub proof fn files_are_open_once(documents: Seq<Document>, file: File, selected: Option<usize>)
    requires
        held_once(documents),
        claims_are_kept(documents),
        documents.len() < usize::MAX,
    ensures
        held_once(after_opening(documents, file, selected)),
        claims_are_kept(after_opening(documents, file, selected)),
        exists|n: int|
            0 <= n < after_opening(documents, file, selected).len() && (#[trigger] after_opening(
                documents,
                file,
                selected,
            )[n]).has(file),
{
    let after = after_opening(documents, file, selected);
    match holder(documents, Some(file), None, 0) {
        Some(n) => {
            held_where_found(documents, Some(file), None, 0);
            assert(after[n].has(file));
        },
        None => {
            not_held(documents, Some(file), None, 0);
            assert forall|i: int| 0 <= i < documents.len() implies !(#[trigger] documents[i]).has(
                file,
            ) by {
                assert(!holds_file(documents[i], Some(file), None));
            }
            match target_of(documents, Some(file), None, selected) {
                Target::Blank(n) => {
                    let n = n as int;
                    assert(after[n].has(file));
                    assert forall|i: int, j: int, other: File|
                        0 <= i < j < after.len() && #[trigger] after[i].has(other) implies !(
                    #[trigger] after[j].has(other)) by {
                        assert(i != n ==> after[i] == documents[i]);
                        assert(j != n ==> after[j] == documents[j]);
                        if i != n && j != n {
                            assert(!documents[j].has(other));
                        }
                    }
                },
                Target::New => {
                    assert(after[documents.len() as int].has(file));
                    assert forall|i: int, j: int, other: File|
                        0 <= i < j < after.len() && #[trigger] after[i].has(other) implies !(
                    #[trigger] after[j].has(other)) by {
                        assert(after[i] == documents[i]);
                        if j < documents.len() {
                            assert(after[j] == documents[j]);
                        }
                    }
                },
                Target::Open(_) => {},
            }
        },
    }
}

/// The document that is found holds the file.
proof fn held_where_found(
    documents: Seq<Document>,
    file: Option<File>,
    canonical: Option<u64>,
    n: int,
)
    requires
        0 <= n,
    ensures
        holder(documents, file, canonical, n) matches Some(found) ==> n <= found
            < documents.len() && holds_file(documents[found], file, canonical),
    decreases documents.len() - n,
{
    if n < documents.len() && !holds_file(documents[n], file, canonical) {
        held_where_found(documents, file, canonical, n + 1);
    }
}

/// Whatever a document is told, a file on its way in has its document kept for it.
#[verifier::rlimit(60)]
#[verifier::spinoff_prover]
pub proof fn claims_stay_kept(document: Document, input: Input)
    requires
        document.claimed is Some ==> document.reserved,
    ensures
        document.next(input).0.claimed is Some ==> document.next(input).0.reserved,
{
}

/// Saving to a file that no other document holds leaves every file in one document.
pub proof fn saved_files_are_open_once(
    documents: Seq<Document>,
    this: int,
    file: File,
    input: Input,
)
    requires
        held_once(documents),
        0 <= this < documents.len(),
        documents[this].phase is Writing,
        documents[this].phase->Writing_0 == file,
        !is_elsewhere(documents, this, Some(file), None),
    ensures
        held_once(documents.update(this, documents[this].next(input).0)),
{
    let after = documents.update(this, documents[this].next(input).0);
    assert forall|i: int, j: int, other: File|
        0 <= i < j < after.len() && #[trigger] after[i].has(other) implies !(#[trigger] after[j].has(
        other,
    )) by {
        let k = if i == this {
            j
        } else {
            i
        };
        assert(!holds_file(documents[k], Some(file), None));
        if i == this || j == this {
            if other != file && after[this].has(other) {
                assert(documents[this].has(other));
            }
            if i == this {
                assert(after[j] == documents[j]);
            } else {
                assert(after[i] == documents[i]);
            }
        } else {
            assert(after[i] == documents[i]);
            assert(after[j] == documents[j]);
        }
    }
}

/// Where a folder goes.
#[derive(Clone, Copy, Debug, PartialEq, Eq, Structural)]
pub enum FolderTarget {
    /// To the window that shows it already, by its number.
    Shown(usize),
    /// Into the window it is opened from, by its number.
    Window(usize),
    /// Into a new window.
    New,
}

/// The first window from `n` on that shows `folder`.
pub open spec fn window_of(folders: Seq<Option<u64>>, folder: u64, n: int) -> Option<int>
    decreases folders.len() - n,
{
    if n < 0 || n >= folders.len() {
        None
    } else if folders[n] == Some(folder) {
        Some(n)
    } else {
        window_of(folders, folder, n + 1)
    }
}

/// Where a folder goes that is opened from the window numbered `from`, if `folders` are those
/// that the windows show, each by a number that tells it from others: to the window that shows
/// it already, otherwise into the window it is opened from unless that shows another folder,
/// otherwise into a new window.
pub fn folder_target(folders: &Vec<Option<u64>>, folder: u64, from: Option<usize>) -> (target:
    FolderTarget)
    ensures
        target == (match window_of(folders@, folder, 0) {
            Some(n) => FolderTarget::Shown(n as usize),
            None => match from {
                Some(n) if n < folders@.len() && folders@[n as int] is None =>
                FolderTarget::Window(n),
                _ => FolderTarget::New,
            },
        }),
{
    let mut n: usize = 0;
    while n < folders.len()
        invariant
            n <= folders@.len(),
            window_of(folders@, folder, 0) == window_of(folders@, folder, n as int),
        decreases folders.len() - n,
    {
        if let Some(shown) = folders[n] {
            if shown == folder {
                return FolderTarget::Shown(n);
            }
        }
        n = n + 1;
    }
    match from {
        Some(n) => if n < folders.len() && folders[n].is_none() {
            FolderTarget::Window(n)
        } else {
            FolderTarget::New
        },
        None => FolderTarget::New,
    }
}

}
