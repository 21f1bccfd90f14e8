//! The EPUB container under construction.
//!
//! The container is built by the `epub_builder` crate. What this library knows
//! of it is a model: the entries written so far, in order, and the metadata set
//! so far. The functions at the end of this file make the calls; their
//! contracts say what each call does to the model and are not proved here. An
//! error of the crate is handed on as its message.

use vstd::prelude::*;
use epub_builder::{EpubBuilder, EpubContent, ZipLibrary};

verus! {

/// `epub_builder::ZipLibrary`, the zip file in memory that a container is
/// written to. Nothing is seen inside it.
#[verifier::external_type_specification]
#[verifier::external_body]
pub struct ExZipLibrary(ZipLibrary);

/// An EPUB container that is being filled: an `epub_builder::EpubBuilder` on
/// a `ZipLibrary`. Nothing is seen inside it; `archive_entries` and
/// `archive_metadata` name what it holds.
#[verifier::external_body]
pub struct Archive {
    builder: EpubBuilder<ZipLibrary>,
}

/// What an entry is to the container.
pub ghost enum EntryRole {
    /// A page of the book, listed in the table of contents under `title`.
    Page { title: Seq<char>, level: int },
    /// A file that pages refer to.
    Resource,
    /// The stylesheet of the archive.
    Stylesheet,
    /// The cover image.
    Cover,
}

/// One file written into the container.
pub ghost struct ArchiveEntry {
    pub path: Seq<char>,
    pub mime: Seq<char>,
    pub content: Seq<u8>,
    pub role: EntryRole,
}

/// The entries written into `archive` so far, oldest first.
pub uninterp spec fn archive_entries(archive: Archive) -> Seq<ArchiveEntry>;

/// The metadata of `archive`: for each key, its values in the order they were
/// given.
pub uninterp spec fn archive_metadata(archive: Archive) -> Map<Seq<char>, Seq<Seq<char>>>;

/// Why an archive that holds `entries` refuses a file at `path` with the bytes
/// `content`; `None` where it takes the file. The archive is a zip file in
/// memory: whether it takes a file, and the message it refuses one with,
/// depend on the names and bytes it holds and on the new name and bytes.
pub uninterp spec fn archive_refusal(entries: Seq<ArchiveEntry>, path: Seq<char>, content: Seq<u8>) -> Option<
    Seq<char>,
>;

/// Why an archive that holds `entries` and has the metadata `metadata` cannot
/// be closed; `None` where it can. Closing writes the table of contents and
/// the package file, and an empty stylesheet where there is none, into the zip
/// file: whether the zip file takes them depends on what it holds.
pub uninterp spec fn closing_refusal(
    entries: Seq<ArchiveEntry>,
    metadata: Map<Seq<char>, Seq<Seq<char>>>,
) -> Option<Seq<char>>;

/// Whether no two of `entries` share a path.
pub open spec fn distinct_paths(entries: Seq<ArchiveEntry>) -> bool {
    forall|i: int, j: int|
        0 <= i < j < entries.len() ==> (#[trigger] entries[i]).path != (#[trigger] entries[j]).path
}

/// Whether some entry of `entries` has the path `path`.
pub open spec fn has_path(entries: Seq<ArchiveEntry>, path: Seq<char>) -> bool {
    exists|i: int| 0 <= i < entries.len() && (#[trigger] entries[i]).path == path
}

/// The metadata keys that hold one value: a new value replaces the old one.
pub open spec fn is_single_key(key: Seq<char>) -> bool {
    key == "title"@ || key == "generator"@
}

/// The metadata keys that hold a list: a new value is added, an empty one
/// clears the list.
pub open spec fn is_list_key(key: Seq<char>) -> bool {
    key == "author"@ || key == "lang"@ || key == "description"@
}

/// The metadata after `key` was given `value`.
pub open spec fn metadata_after(
    metadata: Map<Seq<char>, Seq<Seq<char>>>,
    key: Seq<char>,
    value: Seq<char>,
) -> Map<Seq<char>, Seq<Seq<char>>> {
    if is_single_key(key) {
        metadata.insert(key, seq![value])
    } else if value.len() == 0 {
        metadata.insert(key, Seq::empty())
    } else {
        metadata.insert(key, metadata[key].push(value))
    }
}

/// The metadata of a container that nothing was set on.
pub open spec fn fresh_metadata() -> Map<Seq<char>, Seq<Seq<char>>> {
    Map::<Seq<char>, Seq<Seq<char>>>::empty().insert("title"@, seq![Seq::<char>::empty()]).insert(
        "generator"@,
        seq!["Rust EPUB library"@],
    ).insert("author"@, Seq::empty()).insert("lang"@, Seq::empty()).insert(
        "description"@,
        Seq::empty(),
    )
}

/// The entry that a page written at `path` becomes.
pub open spec fn page_entry(path: Seq<char>, title: Seq<char>, level: int, content: Seq<u8>) -> ArchiveEntry {
    ArchiveEntry {
        path,
        mime: "application/xhtml+xml"@,
        content,
        role: EntryRole::Page { title, level },
    }
}

/// The entry that a resource written at `path` becomes.
pub open spec fn resource_entry(path: Seq<char>, mime: Seq<char>, content: Seq<u8>) -> ArchiveEntry {
    ArchiveEntry { path, mime, content, role: EntryRole::Resource }
}

/// The entry that a cover image written at `path` becomes.
pub open spec fn cover_entry(path: Seq<char>, mime: Seq<char>, content: Seq<u8>) -> ArchiveEntry {
    ArchiveEntry { path, mime, content, role: EntryRole::Cover }
}

/// The entry that the stylesheet becomes.
pub open spec fn stylesheet_entry(content: Seq<u8>) -> ArchiveEntry {
    ArchiveEntry {
        path: "stylesheet.css"@,
        mime: "text/css"@,
        content,
        role: EntryRole::Stylesheet,
    }
}

/// `ZipLibrary::new` starts a zip file in memory and writes the entry
/// `mimetype` into it. It takes nothing and writes into an empty file, so it
/// does not fail.
#[verifier::external_body]
pub(crate) fn new_zip() -> (zip: Result<ZipLibrary, String>)
    ensures
        zip is Ok,
{
    ZipLibrary::new().map_err(|error| error.to_string())
}

/// `EpubBuilder::new` starts a container on `zip`, a zip file as `new_zip`
/// makes it, and writes its two fixed entries; it does not fail. The container
/// has no entry of the book yet and its metadata are the defaults.
#[verifier::external_body]
pub(crate) fn new_archive(zip: ZipLibrary) -> (archive: Result<Archive, String>)
    ensures
        archive is Ok,
        archive matches Ok(a) ==> archive_entries(a).len() == 0 && archive_metadata(a)
            == fresh_metadata(),
{
    EpubBuilder::new(zip).map(|builder| Archive { builder }).map_err(|error| error.to_string())
}

/// `EpubBuilder::metadata` sets one of the metadata. For the keys of the model
/// it always succeeds: `title` and `generator` are replaced, the others grow by
/// a value that is not empty and are cleared by an empty one. Where it fails
/// the metadata stay. The entries stay either way.
#[verifier::external_body]
pub(crate) fn set_metadata(archive: &mut Archive, key: &str, value: &str) -> (done: Result<
    (),
    String,
>)
    ensures
        is_single_key(key@) || is_list_key(key@) ==> done is Ok,
        done is Ok && (is_single_key(key@) || is_list_key(key@)) ==> archive_metadata(*final(archive))
            == metadata_after(archive_metadata(*old(archive)), key@, value@),
        done is Err ==> archive_metadata(*final(archive)) == archive_metadata(*old(archive)),
        archive_entries(*final(archive)) == archive_entries(*old(archive)),
{
    archive.builder.metadata(key, value).map(|_| ()).map_err(|error| error.to_string())
}

/// `EpubBuilder::add_content` writes a page into the zip file and, where the
/// zip file took it, lists it. Whether the zip file takes it is the answer
/// that `archive_refusal` names. Where it does, the page is the newest entry;
/// the zip file takes no name twice, so no older entry has the page's path.
/// Where it does not, the entries stay. The metadata stay either way.
#[verifier::external_body]
pub(crate) fn add_page(
    archive: &mut Archive,
    path: &str,
    title: &str,
    level: i32,
    content: &[u8],
) -> (done: Result<(), String>)
    ensures
        match done {
            Ok(()) => archive_refusal(archive_entries(*old(archive)), path@, content@) is None,
            Err(reason) => archive_refusal(archive_entries(*old(archive)), path@, content@) == Some(
                reason@,
            ),
        },
        done is Ok ==> archive_entries(*final(archive)) == archive_entries(*old(archive)).push(
            page_entry(path@, title@, level as int, content@),
        ),
        done is Ok ==> !has_path(archive_entries(*old(archive)), path@),
        done is Err ==> archive_entries(*final(archive)) == archive_entries(*old(archive)),
        archive_metadata(*final(archive)) == archive_metadata(*old(archive)),
{
    let page = EpubContent::new(path, content).title(title).level(level);
    archive.builder.add_content(page).map(|_| ()).map_err(|error| error.to_string())
}

/// `EpubBuilder::add_resource` writes a file that pages refer to, as
/// `add_content` writes a page: the answer is the one that `archive_refusal`
/// names, a file that is taken is the newest entry and no older entry has its
/// path, a file that is refused leaves the entries as they were.
#[verifier::external_body]
pub(crate) fn add_resource(archive: &mut Archive, path: &str, content: &[u8], mime: &str) -> (done:
    Result<(), String>)
    ensures
        match done {
            Ok(()) => archive_refusal(archive_entries(*old(archive)), path@, content@) is None,
            Err(reason) => archive_refusal(archive_entries(*old(archive)), path@, content@) == Some(
                reason@,
            ),
        },
        done is Ok ==> archive_entries(*final(archive)) == archive_entries(*old(archive)).push(
            resource_entry(path@, mime@, content@),
        ),
        done is Ok ==> !has_path(archive_entries(*old(archive)), path@),
        done is Err ==> archive_entries(*final(archive)) == archive_entries(*old(archive)),
        archive_metadata(*final(archive)) == archive_metadata(*old(archive)),
{
    archive.builder.add_resource(path, content, mime).map(|_| ()).map_err(|error| error.to_string())
}

/// `EpubBuilder::add_cover_image` writes the cover image, as `add_resource`
/// writes a file, and marks it as the cover.
#[verifier::external_body]
pub(crate) fn add_cover(archive: &mut Archive, path: &str, content: &[u8], mime: &str) -> (done:
    Result<(), String>)
    ensures
        match done {
            Ok(()) => archive_refusal(archive_entries(*old(archive)), path@, content@) is None,
            Err(reason) => archive_refusal(archive_entries(*old(archive)), path@, content@) == Some(
                reason@,
            ),
        },
        done is Ok ==> archive_entries(*final(archive)) == archive_entries(*old(archive)).push(
            cover_entry(path@, mime@, content@),
        ),
        done is Ok ==> !has_path(archive_entries(*old(archive)), path@),
        done is Err ==> archive_entries(*final(archive)) == archive_entries(*old(archive)),
        archive_metadata(*final(archive)) == archive_metadata(*old(archive)),
{
    archive.builder.add_cover_image(path, content, mime).map(|_| ()).map_err(|error| error.to_string())
}

/// `EpubBuilder::stylesheet` writes the stylesheet with `add_resource`, as
/// `stylesheet.css` of type `text/css`, and notes that the archive has its
/// stylesheet.
#[verifier::external_body]
pub(crate) fn set_stylesheet(archive: &mut Archive, content: &[u8]) -> (done: Result<
    (),
    String,
>)
    ensures
        match done {
            Ok(()) => archive_refusal(archive_entries(*old(archive)), "stylesheet.css"@, content@) is None,
            Err(reason) => archive_refusal(archive_entries(*old(archive)), "stylesheet.css"@, content@) == Some(
                reason@,
            ),
        },
        done is Ok ==> archive_entries(*final(archive)) == archive_entries(*old(archive)).push(
            stylesheet_entry(content@),
        ),
        done is Ok ==> !has_path(archive_entries(*old(archive)), "stylesheet.css"@),
        done is Err ==> archive_entries(*final(archive)) == archive_entries(*old(archive)),
        archive_metadata(*final(archive)) == archive_metadata(*old(archive)),
{
    archive.builder.stylesheet(content).map(|_| ()).map_err(|error| error.to_string())
}

/// `EpubBuilder::generate` closes the container and hands out its bytes. The
/// bytes hold the time of the call and a fresh identifier, so all that is
/// claimed of them is that there are some: a zip file ends in a directory.
/// Whether the call succeeds, and the message it fails with, is what
/// `closing_refusal` names.
#[verifier::external_body]
pub(crate) fn finish(archive: Archive) -> (bytes: Result<Vec<u8>, String>)
    ensures
        match bytes {
            Ok(written) => closing_refusal(archive_entries(archive), archive_metadata(archive)) is None
                && written@.len() > 0,
            Err(reason) => closing_refusal(archive_entries(archive), archive_metadata(archive))
                == Some(reason@),
        },
{
    let mut bytes = Vec::new();
    archive.builder.generate(&mut bytes).map(|_| bytes).map_err(|error| error.to_string())
}

} // verus!
