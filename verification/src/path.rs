//! Paths: their extensions, and the files beside them.
//!
//! A path is opaque here. What its extension is, and what it is with another
//! extension, are functions of the path under the names below; which characters
//! separate its components is fixed by the target.

use std::path::PathBuf;
use vstd::prelude::*;

verus! {

/// `std::path::PathBuf`. Nothing is stated of it but the names below.
#[verifier::external_type_specification]
#[verifier::external_body]
pub struct ExPathBuf(std::path::PathBuf);

/// The extension of a path: the part of its file name behind the last dot.
/// There is none without a file name, without a dot in it, and where the only
/// dot comes first. What is not Unicode in it stands as replacement characters.
pub uninterp spec fn path_extension(path: PathBuf) -> Option<Seq<char>>;

/// A path with another extension, in place of the one that it has or added to a
/// file name that has none. A path without a file name stays as it is.
pub uninterp spec fn path_with_extension(path: PathBuf, extension: Seq<char>) -> PathBuf;

/// The text of an extension.
pub open spec fn extension_text(extension: Option<String>) -> Option<Seq<char>> {
    match extension {
        Some(name) => Some(name@),
        None => None,
    }
}

/// A text of lower-case letters and hyphens: one that holds no dot and no
/// character that could separate the components of a path.
pub open spec fn plain_extension(extension: Seq<char>) -> bool {
    &&& extension.len() > 0
    &&& forall|k: int|
        0 <= k < extension.len() ==> 'a' <= (#[trigger] extension[k]) <= 'z' || extension[k] == '-'
}

/// `std::path::Path::extension`: a function of the path, whose result holds no
/// dot. What is not Unicode in it is turned into replacement characters.
#[verifier::external_body]
pub(crate) fn extension_of(path: &PathBuf) -> (extension: Option<String>)
    ensures
        extension_text(extension) == path_extension(*path),
        extension matches Some(name) ==> !name@.contains('.'),
{
    path.extension().map(|name| name.to_string_lossy().into_owned())
}

/// `std::path::Path::with_extension`: a function of the path and the extension.
/// The result has that extension, or none where there is no file name to give it
/// to. Where the path has no extension, so that one is added, changing that one
/// gives what adding the other at once does. Where it has one, nothing is stated
/// of a second change: of `..x/` only `..` may be left. An extension with a separator in it would panic; plain ones have none.
#[verifier::external_body]
pub(crate) fn with_extension(path: &PathBuf, extension: &str) -> (changed: PathBuf)
    requires
        plain_extension(extension@),
    ensures
        changed == path_with_extension(*path, extension@),
        path_extension(changed) == Some(extension@) || path_extension(changed) is None,
        path_extension(*path) is None ==> forall|other: Seq<char>|
            plain_extension(other) ==> #[trigger] path_with_extension(changed, other)
                == path_with_extension(*path, other),
{
    path.with_extension(extension)
}

} // verus!
