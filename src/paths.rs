use vstd::prelude::*;

verus! {

/// Whether `std::path::Path::extension` finds an extension in the path with these characters.
pub uninterp spec fn has_extension(p: Seq<char>) -> bool;

/// Relies on `std::path::Path::extension`: whether the path's last component has an extension.
/// The answer depends on the characters of the path alone.
#[verifier::external_body]
fn path_has_extension(p: &str) -> (r: bool)
    ensures
        r == has_extension(p@),
{
    std::path::Path::new(p).extension().is_some()
}

/// A path can name a new file when it has an extension.
pub open spec fn is_file_shaped(p: Seq<char>) -> bool {
    has_extension(p)
}

/// A path can name a new directory when it is not empty and has no extension.
pub open spec fn is_dir_shaped(p: Seq<char>) -> bool {
    p.len() > 0 && !has_extension(p)
}

/// Whether `p` is shaped like a file path.
pub fn file_like(p: &str) -> (r: bool)
    ensures
        r == is_file_shaped(p@),
{
    path_has_extension(p)
}

/// Whether `p` is shaped like a directory path.
pub fn dir_like(p: &str) -> (r: bool)
    ensures
        r == is_dir_shaped(p@),
{
    if p.is_empty() {
        false
    } else {
        !path_has_extension(p)
    }
}

/// The path that `rustilities::paths::prefix_with_current_dir` makes of the path with these
/// characters.
pub uninterp spec fn prefixed_with_current_dir(p: Seq<char>) -> Seq<char>;

/// Relies on `rustilities::paths::prefix_with_current_dir`: a path whose first component is a
/// plain name gets `./` in front, the empty path becomes `.`, and any other path is returned as
/// it is.
#[verifier::external_body]
fn prefix_with_current_dir(p: &str) -> (r: String)
    ensures
        r@ == prefixed_with_current_dir(p@),
{
    rustilities::paths::prefix_with_current_dir(p).to_string_lossy().into_owned()
}

/// The parent that `std::path::Path::parent` finds in the path with these characters.
pub uninterp spec fn parent_of(p: Seq<char>) -> Option<Seq<char>>;

/// Relies on `std::path::Path::parent`: the path without its last component, or nothing for a
/// root or an empty path.
#[verifier::external_body]
pub(crate) fn parent(p: &str) -> (r: Option<String>)
    ensures
        match r {
            Some(d) => parent_of(p@) == Some(d@),
            None => parent_of(p@) is None,
        },
{
    match std::path::Path::new(p).parent() {
        Some(d) => Some(d.to_string_lossy().into_owned()),
        None => None,
    }
}

/// The directory in which the backup of `original` is placed: its parent, once a bare relative
/// path has been anchored at the current directory (so that `file.txt` is backed up in `.`).
/// Nothing when the path has no parent.
pub fn backup_dir(original: &str) -> (r: Option<String>)
    ensures
        match r {
            Some(d) => parent_of(prefixed_with_current_dir(original@)) == Some(d@),
            None => parent_of(prefixed_with_current_dir(original@)) is None,
        },
{
    let anchored = prefix_with_current_dir(original);
    parent(anchored.as_str())
}

} // verus!
