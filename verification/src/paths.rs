//! Paths as plain strings. What a path means is left to `std::path`: its
//! functions are called, and what they give is named here and not described.

use std::path::Path;
use vstd::prelude::*;
use crate::text::{push_chars, string_of};

verus! {

/// `path` with the extension of its file name replaced by `extension`, as
/// `Path::with_extension` gives it.
pub uninterp spec fn with_extension(path: Seq<char>, extension: Seq<char>) -> Seq<char>;

/// `relative` taken from inside `base`, as `Path::join` gives it.
pub uninterp spec fn join(base: Seq<char>, relative: Seq<char>) -> Seq<char>;

/// The path without its last component, as `Path::parent` gives it; `None`
/// for a path that ends in a root or is empty.
pub uninterp spec fn parent(path: Seq<char>) -> Option<Seq<char>>;

/// The components of `path`, as `Path::components` gives them.
pub uninterp spec fn components(path: Seq<char>) -> Seq<Seq<char>>;

/// The directory part of `path`: empty for a bare file name and for a path
/// without a parent.
pub open spec fn parent_dir(path: Seq<char>) -> Seq<char> {
    match parent(path) {
        Some(directory) => directory,
        None => Seq::empty(),
    }
}

/// How many directories stand above the last component of `path`: the number
/// of components of its directory part.
pub open spec fn directory_depth(path: Seq<char>) -> nat {
    components(parent_dir(path)).len()
}

/// The extension of a page.
pub const PAGE_EXTENSION: &'static str = "html";

/// The extension of an archive.
pub const ARCHIVE_EXTENSION: &'static str = "epub";

/// The extensions of pages and of archives hold no path separator.
pub proof fn lemma_extensions()
    ensures
        is_extension(PAGE_EXTENSION@),
        is_extension(ARCHIVE_EXTENSION@),
{
    reveal_strlit("html");
    reveal_strlit("epub");
    assert forall|i: int| 0 <= i < PAGE_EXTENSION@.len() implies #[trigger] PAGE_EXTENSION@[i] != '/'
        && PAGE_EXTENSION@[i] != '\\' by {
        if i == 0 {
        } else if i == 1 {
        } else if i == 2 {
        } else {
        }
    }
    assert forall|i: int| 0 <= i < ARCHIVE_EXTENSION@.len() implies #[trigger] ARCHIVE_EXTENSION@[i]
        != '/' && ARCHIVE_EXTENSION@[i] != '\\' by {
        if i == 0 {
        } else if i == 1 {
        } else if i == 2 {
        } else {
        }
    }
}

/// `unit` written `count` times in a row.
pub open spec fn repeated(unit: Seq<char>, count: nat) -> Seq<char>
    decreases count,
{
    if count == 0 {
        Seq::empty()
    } else {
        repeated(unit, (count - 1) as nat) + unit
    }
}

/// The way from the directory of `path` up to the root, then to `target`: `../`
/// once for each directory above `path`, then `target`.
pub open spec fn relative_to_root(path: Seq<char>, target: Seq<char>) -> Seq<char> {
    repeated(seq!['.', '.', '/'], directory_depth(path)) + target
}

/// Whether `extension` can be the extension of a file name: it holds no path
/// separator.
pub open spec fn is_extension(extension: Seq<char>) -> bool {
    forall|i: int| 0 <= i < extension.len() ==> #[trigger] extension[i] != '/' && extension[i] != '\\'
}

/// `Path::with_extension` replaces the extension of the file name of `path`:
/// a function of the two strings. It panics on an extension that holds a path
/// separator, so such an extension is left out.
#[verifier::external_body]
fn std_with_extension(path: &str, extension: &str) -> (replaced: String)
    requires
        is_extension(extension@),
    ensures
        replaced@ == with_extension(path@, extension@),
{
    Path::new(path).with_extension(extension).to_string_lossy().into_owned()
}

/// `Path::join` joins two paths: a function of the two strings.
#[verifier::external_body]
fn std_join(base: &str, relative: &str) -> (joined: String)
    ensures
        joined@ == join(base@, relative@),
{
    Path::new(base).join(relative).to_string_lossy().into_owned()
}

/// `Path::parent` gives the path without its last component, if it has one: a
/// function of the string.
#[verifier::external_body]
fn std_parent(path: &str) -> (directory: Option<String>)
    ensures
        match directory {
            Some(found) => parent(path@) == Some(found@),
            None => parent(path@) is None,
        },
{
    Path::new(path).parent().map(|directory| directory.to_string_lossy().into_owned())
}

/// `Path::components` gives the components of a path, in order: a function of
/// the string.
#[verifier::external_body]
fn std_components(path: &str) -> (parts: Vec<String>)
    ensures
        parts@.map_values(|part: String| part@) == components(path@),
{
    Path::new(path).components().map(
        |component| component.as_os_str().to_string_lossy().into_owned(),
    ).collect()
}

/// Replaces the extension of the file name of `path` by `extension`, which
/// may hold no path separator.
pub fn path_with_extension(path: &str, extension: &str) -> (replaced: String)
    requires
        is_extension(extension@),
    ensures
        replaced@ == with_extension(path@, extension@),
{
    std_with_extension(path, extension)
}

/// Joins two paths.
pub fn path_join(base: &str, relative: &str) -> (joined: String)
    ensures
        joined@ == join(base@, relative@),
{
    std_join(base, relative)
}

/// The directory part of `path`.
pub fn path_parent(path: &str) -> (directory: String)
    ensures
        directory@ == parent_dir(path@),
{
    match std_parent(path) {
        Some(found) => found,
        None => String::new(),
    }
}

/// Counts the directories above the last component of `path`.
pub fn path_depth(path: &str) -> (depth: usize)
    ensures
        depth == directory_depth(path@),
{
    let directory = path_parent(path);
    let parts = std_components(directory.as_str());
    assert(parts@.map_values(|part: String| part@).len() == parts@.len());
    parts.len()
}

/// Writes the link that leads from the page made of `path` to `target` at the
/// root of the archive.
pub fn link_from(path: &str, target: &str) -> (link: String)
    ensures
        link@ == relative_to_root(path@, target@),
{
    let depth = path_depth(path);
    let mut link: Vec<char> = Vec::new();
    let mut i: usize = 0;
    while i < depth
        invariant
            i <= depth,
            link@ == repeated(seq!['.', '.', '/'], i as nat),
        decreases depth - i,
    {
        link.push('.');
        link.push('.');
        link.push('/');
        i = i + 1;
        assert(link@ == repeated(seq!['.', '.', '/'], (i - 1) as nat) + seq!['.', '.', '/']);
    }
    push_chars(&mut link, target);
    string_of(&link)
}

} // verus!
