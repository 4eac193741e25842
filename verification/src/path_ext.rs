//! Which entries a scan passes over.

use vstd::prelude::*;
use vstd::string::StrSliceExecFns;

verus! {

/// The last component of the path `path`, as `std::path::Path::file_name`
/// gives it: `None` where the path ends in `..` or has no component.
pub uninterp spec fn file_name_of(path: Seq<char>) -> Option<Seq<char>>;

/// The characters of `name`, if there is one.
pub open spec fn text_of(name: Option<String>) -> Option<Seq<char>> {
    match name {
        Some(name) => Some(name@),
        None => None,
    }
}

/// `std::path::Path::file_name` on the path `path`: the result is the last
/// component of the path, which [`file_name_of`] names. The path is text, so
/// the component is text too.
#[verifier::external_body]
fn file_name(path: &str) -> (name: Option<String>)
    ensures
        text_of(name) == file_name_of(path@),
{
    std::path::Path::new(path).file_name().map(|name| name.to_string_lossy().into_owned())
}

/// Whether an entry of the name `name` is hidden: the name begins with a dot.
pub open spec fn is_hidden_name(name: Option<Seq<char>>) -> bool {
    name matches Some(name) && name.len() > 0 && name[0] == '.'
}

/// Whether the file name `name` of an entry, if it has one, marks the entry
/// as hidden.
pub fn hidden_name(name: &Option<String>) -> (hidden: bool)
    ensures
        hidden == is_hidden_name(text_of(*name)),
{
    match name {
        Some(name) => !name.as_str().is_empty() && name.as_str().get_char(0) == '.',
        None => false,
    }
}

/// Paths of entries.
pub trait PathExt {
    /// The characters of the path.
    spec fn path_text(&self) -> Seq<char>;

    /// Whether the entry at the path is hidden: its file name begins with a dot.
    fn is_hidden(&self) -> (hidden: bool)
        ensures
            hidden == is_hidden_name(file_name_of(self.path_text())),
    ;
}

impl PathExt for str {
    open spec fn path_text(&self) -> Seq<char> {
        self@
    }

    fn is_hidden(&self) -> (hidden: bool) {
        hidden_name(&file_name(self))
    }
}

/// Whether a scan takes up the entry at `path`: the root of the scan always,
/// and any other entry unless it is hidden and hidden entries are left out.
pub fn keep_entry(is_root: bool, include_hidden: bool, path: &str) -> (keep: bool)
    ensures
        keep == (is_root || include_hidden || !is_hidden_name(file_name_of(path@))),
{
    is_root || include_hidden || !path.is_hidden()
}

/// How deep a scan goes below its root: one level, or as deep as there are
/// entries where the scan is recursive.
pub fn max_depth(recursive: bool) -> (depth: usize)
    ensures
        depth == if recursive { usize::MAX } else { 1usize },
{
    if recursive {
        usize::MAX
    } else {
        1
    }
}

} // verus!
