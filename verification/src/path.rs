//! Paths: the few things the library does with one.

use std::path::PathBuf;
use vstd::prelude::*;
use vstd::string::*;

verus! {

/// Declares a path of the file system.
#[verifier::external_type_specification]
#[verifier::external_body]
pub struct ExPathBuf(std::path::PathBuf);

/// The bytes a path is made of.
pub uninterp spec fn path_bytes(path: PathBuf) -> Seq<u8>;

/// A clone of a path is the same path.
pub assume_specification[ <std::path::PathBuf as Clone>::clone ](
    path: &std::path::PathBuf,
) -> (copy: std::path::PathBuf)
    ensures
        copy == *path,
;

/// `base` with the path `part` after it, and a slash between them unless `base` ends in one
/// or is empty; an absolute `part` stands alone.
pub open spec fn joined(base: Seq<u8>, part: Seq<u8>) -> Seq<u8> {
    if part.len() > 0 && part[0] == 0x2fu8 {
        part
    } else if base.len() == 0 || base.last() == 0x2fu8 {
        base + part
    } else {
        base.push(0x2fu8) + part
    }
}

/// `PathBuf::from` of a text is the path made of the text's bytes.
#[verifier::external_body]
pub(crate) fn path_from(text: &str) -> (path: PathBuf)
    ensures
        path_bytes(path) == text.spec_bytes(),
{
    PathBuf::from(text)
}

/// `Path::join` adjoins a relative path, with a separator where one is needed, and an
/// absolute path replaces the base.
#[verifier::external_body]
pub(crate) fn join(base: &PathBuf, part: &str) -> (path: PathBuf)
    ensures
        path_bytes(path) == joined(path_bytes(*base), part.spec_bytes()),
{
    base.join(part)
}

}
