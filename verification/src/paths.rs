//! The lexical operations on filesystem paths that the traversal needs. They are
//! those of `std::path`, so that a path is taken apart here exactly as the platform
//! takes it apart; nothing in this module touches the filesystem.

use crate::text::{last_index, optional_view};
use std::path::Path;
use vstd::prelude::*;

verus! {

/// The path without its final component, as `std::path::Path::parent` gives it.
pub uninterp spec fn parent_of(path: Seq<char>) -> Option<Seq<char>>;

/// `path` adjoined to `base`, as `std::path::Path::join` gives it.
pub uninterp spec fn joined_path(base: Seq<char>, path: Seq<char>) -> Seq<char>;

/// The final component of the path, as `std::path::Path::file_name` gives it.
pub uninterp spec fn file_name_of(path: Seq<char>) -> Option<Seq<char>>;

/// The extension that a file name has: what follows its last dot. A name without a
/// dot has none, and neither has a name whose only dot is its first character.
pub open spec fn extension_in(name: Seq<char>) -> Option<Seq<char>> {
    let dot = last_index(name, '.', name.len() as int);
    if dot <= 0 {
        None
    } else {
        Some(name.skip(dot + 1))
    }
}

/// The extension of a path: that of its file name, where it has one.
pub open spec fn extension_of(path: Seq<char>) -> Option<Seq<char>> {
    match file_name_of(path) {
        Some(name) => extension_in(name),
        None => None,
    }
}

/// Calls `std::path::Path::parent`. Assumed: the result depends on the path's text
/// alone.
#[verifier::external_body]
pub(crate) fn path_parent(path: &str) -> (parent: Option<String>)
    ensures
        optional_view(parent) == parent_of(path@),
{
    Path::new(path).parent().map(|dir| dir.to_string_lossy().into_owned())
}

/// Calls `std::path::Path::join`. Assumed: the result depends on the two texts alone.
#[verifier::external_body]
pub(crate) fn path_join(base: &str, path: &str) -> (joined: String)
    ensures
        joined@ == joined_path(base@, path@),
{
    Path::new(base).join(path).to_string_lossy().into_owned()
}

/// Calls `std::path::Path::extension`. Assumed, as the standard library documents
/// it: the extension is taken from the path's file name; there is none where the
/// path has no file name, where the name holds no dot, and where its only dot is its
/// first character; otherwise it is what follows the last dot.
#[verifier::external_body]
pub(crate) fn path_extension(path: &str) -> (extension: Option<String>)
    ensures
        optional_view(extension) == extension_of(path@),
{
    Path::new(path).extension().map(|ext| ext.to_string_lossy().into_owned())
}

/// Calls `std::path::Path::file_name`. Assumed: the result depends on the path's text
/// alone.
#[verifier::external_body]
pub(crate) fn path_file_name(path: &str) -> (name: Option<String>)
    ensures
        optional_view(name) == file_name_of(path@),
{
    Path::new(path).file_name().map(|name| name.to_string_lossy().into_owned())
}

/// The directory against which the links of the document at `document` are resolved:
/// the document's parent, or `.` where it has none.
pub open spec fn base_directory(document: Seq<char>) -> Seq<char> {
    match parent_of(document) {
        Some(directory) => directory,
        None => "."@,
    }
}

/// The directory against which the links of the document at `document` are resolved.
pub fn base_directory_of(document: &str) -> (directory: String)
    ensures
        directory@ == base_directory(document@),
{
    match path_parent(document) {
        Some(directory) => directory,
        None => ".".to_owned(),
    }
}

/// A path names a markdown document when its extension is `md` or `markdown`.
pub open spec fn is_markdown(path: Seq<char>) -> bool {
    extension_of(path) == Some("md"@) || extension_of(path) == Some("markdown"@)
}

/// Whether `path` names a markdown document.
pub fn is_markdown_path(path: &str) -> (r: bool)
    ensures
        r == is_markdown(path@),
{
    match path_extension(path) {
        Some(extension) => {
            let md = "md".to_owned();
            let markdown = "markdown".to_owned();
            extension == md || extension == markdown
        },
        None => false,
    }
}

/// What `base_path` and `relative_path` resolve to before the filesystem is asked:
/// the relative path adjoined to the directory of the base path. Fails when the base
/// path has no parent.
pub open spec fn relative_to(base_path: Seq<char>, relative_path: Seq<char>) -> Result<
    Seq<char>,
    Seq<char>,
> {
    match parent_of(base_path) {
        Some(directory) => Ok(joined_path(directory, relative_path)),
        None => Err("Failed to get base directory"@),
    }
}

/// Resolves `relative_path` against the directory that holds `base_path`. The result
/// is the adjoined path as written; making it canonical is left to the caller, who
/// has the filesystem.
pub fn resolve_relative_path(base_path: &str, relative_path: &str) -> (resolved: Result<
    String,
    String,
>)
    ensures
        match resolved {
            Ok(path) => Ok(path@),
            Err(message) => Err(message@),
        } == relative_to(base_path@, relative_path@),
{
    match path_parent(base_path) {
        Some(directory) => Ok(path_join(directory.as_str(), relative_path)),
        None => Err("Failed to get base directory".to_owned()),
    }
}

} // verus!
