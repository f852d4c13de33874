//! Which images of a document are shown: files of its own folder only.

use crate::path::join;
use crate::text::{chars_of, contains, has_at, holds, starts_with, text_of, trim, trimmed};
use std::path::PathBuf;
use vstd::prelude::*;
use vstd::string::*;

verus! {

/// Where an image may be found.
#[derive(Debug, PartialEq)]
pub enum ImageReference {
    /// A `file:` address.
    Uri(String),
    /// A path.
    File(PathBuf),
}

/// Where an image may be found, as contracts speak of it: an address, or the bytes of a path.
pub enum ReferenceView {
    Uri(Seq<char>),
    File(Seq<u8>),
}

impl View for ImageReference {
    type V = ReferenceView;

    open spec fn view(&self) -> ReferenceView {
        match *self {
            ImageReference::Uri(uri) => ReferenceView::Uri(uri@),
            ImageReference::File(path) => ReferenceView::File(crate::path::path_bytes(path)),
        }
    }
}

/// Where the image a document refers to may be found: nowhere for one that is written out, is
/// on the web, or is in a document without a folder.
pub open spec fn reference_of(dest_url: Seq<char>, base_dir: Option<Seq<u8>>) -> Option<
    ReferenceView,
> {
    let url = trim(dest_url);
    if url.len() == 0 || starts_with(url, "data:"@) {
        None
    } else {
        match base_dir {
            None => None,
            Some(base) => if starts_with(url, "file://"@) {
                Some(ReferenceView::Uri(url))
            } else if holds(url, "://"@) {
                None
            } else {
                Some(
                    ReferenceView::File(
                        crate::path::joined(base, vstd::utf8::encode_utf8(url)),
                    ),
                )
            },
        }
    }
}

/// A reference that may be missing, as contracts speak of it.
pub open spec fn opt_reference(reference: Option<ImageReference>) -> Option<ReferenceView> {
    match reference {
        Some(reference) => Some(reference@),
        None => None,
    }
}

/// Resolve an image reference to where a local file may be found.
///
/// A Markdown document can come from an untrusted source (an email attachment, a download).
/// Rendering happens automatically on open, so an unrestricted image reference would let a
/// crafted document read and display arbitrary local files and use the render-vs-blank result
/// as a file-existence oracle. Remote schemes are never fetched, and what is found is shown
/// only if [`is_contained`] allows it.
pub fn local_image_path(dest_url: &str, base_dir: Option<&PathBuf>) -> (reference: Option<
    ImageReference,
>)
    ensures
        opt_reference(reference) == reference_of(
            dest_url@,
            match base_dir {
                Some(base) => Some(crate::path::path_bytes(*base)),
                None => None,
            },
        ),
{
    let url = trimmed(&chars_of(dest_url));
    if url.len() == 0 || has_at(&url, 0, &chars_of("data:")) {
        return None;
    }
    let base = match base_dir {
        Some(base) => base,
        None => {
            return None;
        },
    };
    let text = text_of(&url, 0, url.len());
    proof {
        assert(url@.subrange(0, url@.len() as int) =~= url@);
    }
    if has_at(&url, 0, &chars_of("file://")) {
        Some(ImageReference::Uri(text))
    } else if contains(&url, &chars_of("://")) {
        None
    } else {
        Some(ImageReference::File(join(base, text.as_str())))
    }
}

/// Whether a path is written out in full: it starts at the root, and it has no empty component,
/// none that is a single dot, and no backslash.
pub open spec fn is_written_out(path: Seq<u8>) -> bool {
    &&& path.len() > 0
    &&& path[0] == 0x2f
    &&& path.len() > 1 ==> path.last() != 0x2f
    &&& forall|i: int| 0 <= i < path.len() ==> #[trigger] path[i] != 0x5c
    &&& forall|i: int|
        0 <= i < path.len() - 1 && #[trigger] path[i] == 0x2f ==> path[i + 1] != 0x2f && !(path[i
            + 1] == 0x2e && (i + 2 == path.len() || path[i + 2] == 0x2f))
}

/// Whether a path lies in a folder, as `Path::starts_with` has it.
pub uninterp spec fn starts_with_path(path: Seq<u8>, folder: Seq<u8>) -> bool;

/// Whether a path lies in a folder, by whole components: of paths that are written out, it is
/// the folder, or the folder is the root, or it starts with the folder and a slash.
pub open spec fn lies_in(path: Seq<u8>, folder: Seq<u8>) -> bool {
    if is_written_out(path) && is_written_out(folder) {
        ||| path == folder
        ||| folder.len() == 1
        ||| folder.push(0x2f).is_prefix_of(path)
    } else {
        starts_with_path(path, folder)
    }
}

/// `Path::starts_with` compares whole components, which [`lies_in`] states for paths that are
/// written out; of any others it is a function of the two paths, named [`starts_with_path`].
#[verifier::external_body]
fn path_starts_with(path: &PathBuf, folder: &PathBuf) -> (found: bool)
    ensures
        found == lies_in(crate::path::path_bytes(*path), crate::path::path_bytes(*folder)),
        !(is_written_out(crate::path::path_bytes(*path)) && is_written_out(
            crate::path::path_bytes(*folder),
        )) ==> found == starts_with_path(
            crate::path::path_bytes(*path),
            crate::path::path_bytes(*folder),
        ),
{
    path.starts_with(folder)
}

/// Whether an image is shown: `resolved` and `base` are its path and the document's folder with
/// `..` collapsed and symbolic links resolved, and it has to be a file inside the folder.
pub fn is_contained(resolved: &PathBuf, base: &PathBuf, is_file: bool) -> (shown: bool)
    ensures
        shown == (is_file && lies_in(
            crate::path::path_bytes(*resolved),
            crate::path::path_bytes(*base),
        )),
{
    let inside = path_starts_with(resolved, base);
    shows_image(inside, is_file)
}

/// Whether an image inside the document's folder or not, that is a file or not, is shown.
pub fn shows_image(inside: bool, is_file: bool) -> (shown: bool)
    ensures
        shown == (inside && is_file),
{
    inside && is_file
}

/// A document without a folder shows no image, and no document shows one of the web.
pub proof fn remote_images_are_never_found(dest_url: Seq<char>, base_dir: Option<Seq<u8>>)
    ensures
        base_dir is None ==> reference_of(dest_url, base_dir) is None,
        starts_with(trim(dest_url), "http://"@) || starts_with(trim(dest_url), "https://"@)
            ==> reference_of(dest_url, base_dir) is None,
{
    reveal_strlit("http://");
    reveal_strlit("https://");
    reveal_strlit("file://");
    reveal_strlit("data:");
    reveal_strlit("://");
    let url = trim(dest_url);
    if starts_with(url, "http://"@) {
        assert(url.subrange(0, 7)[0] == 'h');
        assert forall|i: int| 0 <= i < 3 implies url[4 + i] == "://"@[i] by {
            assert(url.subrange(0, 7)[4 + i] == "http://"@[4 + i]);
        }
        assert(url.subrange(4, 7) =~= "://"@);
        assert(crate::text::stands_at(url, 4, "://"@));
        if starts_with(url, "file://"@) {
            assert(url.subrange(0, 7)[0] == 'f');
        }
    }
    if starts_with(url, "https://"@) {
        assert(url.subrange(0, 8)[0] == 'h');
        assert forall|i: int| 0 <= i < 3 implies url[5 + i] == "://"@[i] by {
            assert(url.subrange(0, 8)[5 + i] == "https://"@[5 + i]);
        }
        assert(url.subrange(5, 8) =~= "://"@);
        assert(crate::text::stands_at(url, 5, "://"@));
        if starts_with(url, "file://"@) {
            assert(url.subrange(0, 7)[0] == 'f');
        }
    }
}

/// An image that a document refers to by a path is looked for in the document's folder, whatever
/// white space stands around the path, and one that is written out, on the web or without a folder
/// is not looked for at all.
pub proof fn local_images_are_looked_for(url: Seq<char>, base: Seq<u8>)
    ensures
        reference_of(url, None) is None,
        trim(url).len() == 0 ==> reference_of(url, Some(base)) is None,
        starts_with(trim(url), "data:"@) ==> reference_of(url, Some(base)) is None,
        trim(url).len() > 0 && !starts_with(trim(url), "data:"@) && !starts_with(
            trim(url),
            "file://"@,
        ) && !holds(trim(url), "://"@) ==> reference_of(url, Some(base)) == Some(
            ReferenceView::File(crate::path::joined(base, vstd::utf8::encode_utf8(trim(url)))),
        ),
{
}

}
