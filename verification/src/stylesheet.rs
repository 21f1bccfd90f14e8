//! The stylesheet of the archive: the built-in stylesheet, where it is asked
//! for, followed by the stylesheets of the book in the order in which the book
//! lists them.

use vstd::prelude::*;
use vstd::utf8::encode_utf8;
use crate::book::Config;
use crate::errors::{Error, ErrorView};
use crate::files::{
    file_state, first_found_from, lemma_first_found_bounds, views, FileEntry, FileState, Resources,
};
use crate::paths::{join, path_join};
use crate::text::push_bytes;

verus! {

/// The built-in stylesheet.
pub const DEFAULT_CSS: &'static str =
    "body {\n  margin: 5%;\n  text-align: justify;\n  font-size: medium;\n}\n\ncode {\n  font-family: monospace;\n  white-space: pre-wrap;\n}\n\nh1, h2, h3, h4, h5, h6 {\n  text-align: left;\n}\n\nimg {\n  max-width: 100%;\n}\n\nblockquote {\n  margin-left: 1em;\n  padding-left: 1em;\n  border-left: 2px solid #999;\n}\n\ntable {\n  border-collapse: collapse;\n}\n\ntd, th {\n  border: 1px solid #999;\n  padding: 0.2em 0.5em;\n}\n";

/// The places where a stylesheet of the book is looked for, in order: in the
/// root of the book, then at the path as it is.
pub open spec fn stylesheet_candidates(root: Seq<char>, path: Seq<char>) -> Seq<Seq<char>> {
    seq![join(root, path), path]
}

/// The bytes of the stylesheet at `path`, or why they cannot be had: a file
/// that is not found or cannot be opened gives `CssOpen` with the path that
/// was tried, one that cannot be read to its end gives `StylesheetRead` with
/// the place where it was found.
pub open spec fn stylesheet_part(root: Seq<char>, path: Seq<char>, files: Seq<FileEntry>) -> Result<
    Seq<u8>,
    ErrorView,
> {
    let candidates = stylesheet_candidates(root, path);
    match first_found_from(files, candidates, 0) {
        None => Err(ErrorView::CssOpen(path)),
        Some(index) => match file_state(files, candidates[index]) {
            FileState::Present(content) => Ok(content@),
            FileState::ReadFailed => Err(ErrorView::StylesheetRead(candidates[index])),
            _ => Err(ErrorView::CssOpen(candidates[index])),
        },
    }
}

/// `start` followed by the stylesheets at `paths`, in order. The first
/// stylesheet that cannot be had decides the error.
pub open spec fn composed(
    start: Seq<u8>,
    root: Seq<char>,
    paths: Seq<Seq<char>>,
    files: Seq<FileEntry>,
) -> Result<Seq<u8>, ErrorView>
    decreases paths.len(),
{
    if paths.len() == 0 {
        Ok(start)
    } else {
        match composed(start, root, paths.drop_last(), files) {
            Err(error) => Err(error),
            Ok(bytes) => match stylesheet_part(root, paths.last(), files) {
                Err(error) => Err(error),
                Ok(part) => Ok(bytes + part),
            },
        }
    }
}

/// What the stylesheet starts with.
pub open spec fn stylesheet_start(use_default_css: bool) -> Seq<u8> {
    if use_default_css {
        encode_utf8(DEFAULT_CSS@)
    } else {
        Seq::empty()
    }
}

/// The stylesheet of a book with the settings `config` in the directory
/// `root`.
pub open spec fn stylesheet_of(config: Config, root: Seq<char>, files: Seq<FileEntry>) -> Result<
    Seq<u8>,
    ErrorView,
> {
    composed(stylesheet_start(config.use_default_css), root, views(config.additional_css@), files)
}

/// Once the stylesheets up to some place cannot be had, the error stays.
pub proof fn lemma_composed_prefix_error(
    start: Seq<u8>,
    root: Seq<char>,
    paths: Seq<Seq<char>>,
    count: int,
    files: Seq<FileEntry>,
)
    requires
        0 <= count <= paths.len(),
    ensures
        composed(start, root, paths.take(count), files) is Err ==> composed(start, root, paths, files)
            == composed(start, root, paths.take(count), files),
    decreases paths.len() - count,
{
    if count < paths.len() {
        assert(paths.take(count + 1).drop_last() == paths.take(count));
        lemma_composed_prefix_error(start, root, paths, count + 1, files);
    } else {
        assert(paths.take(count) == paths);
    }
}

/// Without the built-in stylesheet and with one stylesheet of the book that is
/// found, the stylesheet is that file, byte for byte.
pub proof fn lemma_single_stylesheet(config: Config, root: Seq<char>, files: Seq<FileEntry>)
    requires
        !config.use_default_css,
        config.additional_css.len() == 1,
        stylesheet_part(root, config.additional_css[0]@, files) is Ok,
    ensures
        stylesheet_of(config, root, files) == stylesheet_part(root, config.additional_css[0]@, files),
{
    let paths = views(config.additional_css@);
    reveal_with_fuel(composed, 2);
    assert(paths.drop_last().len() == 0);
    assert(paths.last() == config.additional_css[0]@);
    let part = stylesheet_part(root, config.additional_css[0]@, files)->Ok_0;
    assert(Seq::<u8>::empty() + part == part);
}

/// The stylesheets of the book follow one another in the order in which the
/// book lists them: what is composed of the first `count + 1` of them is what
/// is composed of the first `count`, followed by the next.
pub proof fn lemma_composed_in_order(
    start: Seq<u8>,
    root: Seq<char>,
    paths: Seq<Seq<char>>,
    count: int,
    files: Seq<FileEntry>,
)
    requires
        0 <= count < paths.len(),
        composed(start, root, paths.take(count + 1), files) is Ok,
    ensures
        composed(start, root, paths.take(count), files) is Ok,
        stylesheet_part(root, paths[count], files) is Ok,
        composed(start, root, paths.take(count + 1), files)->Ok_0 == composed(
            start,
            root,
            paths.take(count),
            files,
        )->Ok_0 + stylesheet_part(root, paths[count], files)->Ok_0,
{
    assert(paths.take(count + 1).drop_last() == paths.take(count));
    assert(paths.take(count + 1).last() == paths[count]);
}

/// Reads one stylesheet of the book from what the world outside holds.
pub fn read_stylesheet<'a>(root: &str, path: &String, resources: &'a Resources) -> (part: Result<
    &'a Vec<u8>,
    Error,
>)
    ensures
        match part {
            Ok(bytes) => stylesheet_part(root@, path@, resources.files@) == Ok::<Seq<u8>, ErrorView>(
                bytes@,
            ),
            Err(error) => stylesheet_part(root@, path@, resources.files@) == Err::<
                Seq<u8>,
                ErrorView,
            >(error@),
        },
{
    let mut candidates: Vec<String> = Vec::new();
    candidates.push(path_join(root, path.as_str()));
    candidates.push(path.clone());
    assert(views(candidates@) =~= stylesheet_candidates(root@, path@));
    match resources.locate(&candidates) {
        None => Err(Error::CssOpen(path.clone())),
        Some(index) => {
            assert(views(candidates@)[index as int] == candidates@[index as int]@);
            proof {
                lemma_first_found_bounds(resources.files@, views(candidates@), 0);
            }
            match resources.file(&candidates[index]) {
                FileState::Present(content) => Ok(content),
                FileState::ReadFailed => Err(Error::StylesheetRead(candidates[index].clone())),
                _ => Err(Error::CssOpen(candidates[index].clone())),
            }
        },
    }
}

/// Concatenates the stylesheets into one: the built-in one first, where
/// `config` asks for it, then the stylesheets of the book in their order.
pub fn generate_stylesheet(config: &Config, root: &str, resources: &Resources) -> (stylesheet:
    Result<Vec<u8>, Error>)
    ensures
        match stylesheet {
            Ok(bytes) => stylesheet_of(*config, root@, resources.files@) == Ok::<Seq<u8>, ErrorView>(
                bytes@,
            ),
            Err(error) => stylesheet_of(*config, root@, resources.files@) == Err::<
                Seq<u8>,
                ErrorView,
            >(error@),
        },
{
    let mut stylesheet: Vec<u8> = Vec::new();
    if config.use_default_css {
        push_bytes(&mut stylesheet, DEFAULT_CSS.as_bytes());
    }
    let ghost start = stylesheet_start(config.use_default_css);
    let ghost paths = views(config.additional_css@);
    assert(Seq::<u8>::empty() + encode_utf8(DEFAULT_CSS@) == encode_utf8(DEFAULT_CSS@));
    assert(stylesheet@ == start);
    assert(paths.take(0) == Seq::<Seq<char>>::empty());
    let mut i: usize = 0;
    while i < config.additional_css.len()
        invariant
            i <= config.additional_css.len(),
            paths == views(config.additional_css@),
            start == stylesheet_start(config.use_default_css),
            composed(start, root@, paths.take(i as int), resources.files@) == Ok::<
                Seq<u8>,
                ErrorView,
            >(stylesheet@),
        decreases config.additional_css.len() - i,
    {
        assert(paths.take(i + 1).drop_last() == paths.take(i as int));
        assert(paths.take(i + 1).last() == config.additional_css@[i as int]@);
        proof {
            lemma_composed_prefix_error(start, root@, paths, i + 1, resources.files@);
        }
        match read_stylesheet(root, &config.additional_css[i], resources) {
            Ok(bytes) => {
                push_bytes(&mut stylesheet, bytes.as_slice());
            },
            Err(error) => {
                return Err(error);
            },
        }
        i = i + 1;
    }
    assert(paths.take(paths.len() as int) == paths);
    Ok(stylesheet)
}

} // verus!
