//! The resources that the chapters refer to: finding the references, telling
//! URLs from paths, and turning what the world outside holds for them into the
//! assets of the archive.

use vstd::prelude::*;
use crate::book::{Book, Chapter};
use crate::errors::{Error, ErrorView};
use crate::files::{
    fetch_state, file_state, first_found_from, lemma_first_found_bounds, views, FetchState,
    FileState, Resources,
};
use crate::markdown::{find_images, link_views, markdown_images, Link};
use crate::naming::{asset_filename, is_remote, name_asset, reference_is_remote};
use crate::paths::{
    join, link_from, parent_dir, path_join, path_parent, relative_to_root, repeated,
};
use crate::text::{concat, push_chars, string_of};
use vstd::slice::slice_to_vec;

verus! {

/// The media type that `mime_guess` gives for `path`.
pub uninterp spec fn guessed_mime(path: Seq<char>) -> Seq<char>;

/// `mime_guess::from_path` looks the extension of `path` up in its table, and
/// `first_or_octet_stream` takes the first media type listed there, or
/// `application/octet-stream`: a function of `path` alone.
#[verifier::external_body]
pub(crate) fn guess_mime(path: &str) -> (mime: String)
    ensures
        mime@ == guessed_mime(path@),
{
    mime_guess::from_path(path).first_or_octet_stream().to_string()
}

/// A reference found in a chapter.
#[derive(Debug, Clone)]
pub struct Reference {
    /// The reference as the chapter writes it.
    pub link: String,
    /// The source path of the first chapter that holds it.
    pub chapter: String,
}

/// A `Reference` with its strings as sequences of characters.
pub ghost struct ReferenceView {
    pub link: Seq<char>,
    pub chapter: Seq<char>,
}

impl View for Reference {
    type V = ReferenceView;

    open spec fn view(&self) -> ReferenceView {
        ReferenceView { link: self.link@, chapter: self.chapter@ }
    }
}

/// Where the bytes of an asset come from.
#[derive(Debug, Clone)]
pub enum AssetKind {
    /// From the network.
    Remote,
    /// From the file at this path.
    Local(String),
}

/// A resource of the archive.
#[derive(Debug, Clone)]
pub struct Asset {
    /// The reference that led to it.
    pub original_link: String,
    /// Its name in the archive.
    pub filename: String,
    /// Its media type.
    pub mimetype: String,
    /// Where its bytes come from.
    pub source: AssetKind,
    /// Whether its bytes were had. An asset without them stands in for a
    /// resource of the network that could not be fetched, and is empty.
    pub found: bool,
    /// Its bytes.
    pub content: Vec<u8>,
}

/// An `AssetKind` with its string as a sequence of characters.
pub ghost enum AssetKindView {
    Remote,
    Local(Seq<char>),
}

/// An `Asset` with its strings and bytes as sequences.
pub ghost struct AssetView {
    pub original_link: Seq<char>,
    pub filename: Seq<char>,
    pub mimetype: Seq<char>,
    pub source: AssetKindView,
    pub found: bool,
    pub content: Seq<u8>,
}

impl View for Asset {
    type V = AssetView;

    open spec fn view(&self) -> AssetView {
        AssetView {
            original_link: self.original_link@,
            filename: self.filename@,
            mimetype: self.mimetype@,
            source: match self.source {
                AssetKind::Remote => AssetKindView::Remote,
                AssetKind::Local(path) => AssetKindView::Local(path@),
            },
            found: self.found,
            content: self.content@,
        }
    }
}

/// The views of `references`, in order.
pub open spec fn reference_views(references: Seq<Reference>) -> Seq<ReferenceView> {
    references.map_values(|reference: Reference| reference@)
}

/// The views of `assets`, in order.
pub open spec fn asset_views(assets: Seq<Asset>) -> Seq<AssetView> {
    assets.map_values(|asset: Asset| asset@)
}

/// Whether one of `found` has the link `link`.
pub open spec fn has_link(found: Seq<ReferenceView>, link: Seq<char>) -> bool {
    exists|i: int| 0 <= i < found.len() && (#[trigger] found[i]).link == link
}

/// `found` with the links `links` of the chapter at `chapter` added, each
/// unless it is there already.
pub open spec fn with_links(found: Seq<ReferenceView>, chapter: Seq<char>, links: Seq<Seq<char>>) -> Seq<
    ReferenceView,
>
    decreases links.len(),
{
    if links.len() == 0 {
        found
    } else {
        let before = with_links(found, chapter, links.drop_last());
        if has_link(before, links.last()) {
            before
        } else {
            before.push(ReferenceView { link: links.last(), chapter })
        }
    }
}

/// The references of `chapters`: the destinations of the images of every
/// chapter that has a source path, each once, in the order in which they first
/// occur, with the chapter in which they first occur.
pub open spec fn references_in(chapters: Seq<Chapter>) -> Seq<ReferenceView>
    decreases chapters.len(),
{
    if chapters.len() == 0 {
        Seq::empty()
    } else {
        let before = references_in(chapters.drop_last());
        match chapters.last().path {
            Some(path) => with_links(before, path@, markdown_images(chapters.last().content@)),
            None => before,
        }
    }
}

/// Whether no two of `found` have the same link.
pub open spec fn distinct_links(found: Seq<ReferenceView>) -> bool {
    forall|i: int, j: int|
        0 <= i < j < found.len() ==> (#[trigger] found[i]).link != (#[trigger] found[j]).link
}

/// Whether the chapter at `index` of `chapters` has a source path and an image
/// that leads to `link`.
pub open spec fn chapter_holds(chapters: Seq<Chapter>, index: int, link: Seq<char>) -> bool {
    0 <= index < chapters.len() && chapters[index].path is Some && markdown_images(
        chapters[index].content@,
    ).contains(link)
}

/// Whether some chapter of `chapters` has a source path and an image that
/// leads to `link`.
pub open spec fn occurs_in(chapters: Seq<Chapter>, link: Seq<char>) -> bool {
    exists|index: int| chapter_holds(chapters, index, link)
}

/// The places where the file of a path written in the chapter at `chapter` is
/// looked for, in order: beside the chapter, in the source directory, in the
/// root of the book.
pub open spec fn asset_candidates(root: Seq<char>, src: Seq<char>, chapter: Seq<char>, link: Seq<char>) -> Seq<
    Seq<char>,
> {
    seq![
        join(join(join(root, src), parent_dir(chapter)), link),
        join(join(root, src), link),
        join(root, link),
    ]
}

/// The places where a file named in the settings of the book is looked for, in
/// order: at the path as it is, in the source directory, in the root of the
/// book.
pub open spec fn resource_candidates(root: Seq<char>, src: Seq<char>, path: Seq<char>) -> Seq<Seq<char>> {
    seq![path, join(join(root, src), path), join(root, path)]
}

/// The media type of a fetched resource: the one that came with it, or else
/// the one guessed from its name.
pub open spec fn fetched_mime(content_type: Option<String>, filename: Seq<char>) -> Seq<char> {
    match content_type {
        Some(given) => if given@.len() > 0 {
            given@
        } else {
            guessed_mime(filename)
        },
        None => guessed_mime(filename),
    }
}

/// The asset that `reference` resolves to, given what the world outside holds.
/// A URL that could not be fetched resolves to an empty asset that stands in
/// for it; a path for which no file is found, or whose file cannot be read,
/// does not resolve.
pub open spec fn resolved_asset(
    reference: ReferenceView,
    root: Seq<char>,
    src: Seq<char>,
    resources: Resources,
) -> Result<AssetView, ErrorView> {
    let filename = asset_filename(reference.link);
    if is_remote(reference.link) {
        match fetch_state(resources.remote@, reference.link) {
            FetchState::Fetched { content, content_type } => Ok(
                AssetView {
                    original_link: reference.link,
                    filename,
                    mimetype: fetched_mime(content_type, filename),
                    source: AssetKindView::Remote,
                    found: true,
                    content: content@,
                },
            ),
            FetchState::Unreachable => Ok(
                AssetView {
                    original_link: reference.link,
                    filename,
                    mimetype: guessed_mime(filename),
                    source: AssetKindView::Remote,
                    found: false,
                    content: Seq::empty(),
                },
            ),
        }
    } else {
        let candidates = asset_candidates(root, src, reference.chapter, reference.link);
        match first_found_from(resources.files@, candidates, 0) {
            None => Err(ErrorView::AssetFileNotFound(reference.link)),
            Some(index) => match file_state(resources.files@, candidates[index]) {
                FileState::Present(content) => Ok(
                    AssetView {
                        original_link: reference.link,
                        filename,
                        mimetype: guessed_mime(filename),
                        source: AssetKindView::Local(candidates[index]),
                        found: true,
                        content: content@,
                    },
                ),
                _ => Err(ErrorView::AssetOpen(candidates[index])),
            },
        }
    }
}

/// Whether one of `assets` has the name `filename`.
pub open spec fn has_filename(assets: Seq<AssetView>, filename: Seq<char>) -> bool {
    exists|i: int| 0 <= i < assets.len() && (#[trigger] assets[i]).filename == filename
}

/// Whether no two of `assets` have the same name.
pub open spec fn distinct_filenames(assets: Seq<AssetView>) -> bool {
    forall|i: int, j: int|
        0 <= i < j < assets.len() ==> (#[trigger] assets[i]).filename != (
        #[trigger] assets[j]).filename
}

/// The assets that `references` resolve to, in order. The first reference that
/// does not resolve decides the error. An asset whose name an earlier asset
/// has already gets another name, so that no two assets share a name.
pub open spec fn resolved_assets(
    references: Seq<ReferenceView>,
    root: Seq<char>,
    src: Seq<char>,
    resources: Resources,
) -> Result<Seq<AssetView>, ErrorView>
    decreases references.len(),
{
    if references.len() == 0 {
        Ok(Seq::empty())
    } else {
        match resolved_assets(references.drop_last(), root, src, resources) {
            Err(error) => Err(error),
            Ok(assets) => match resolved_asset(references.last(), root, src, resources) {
                Err(error) => Err(error),
                Ok(asset) => Ok(assets.push(renamed(asset, free_name(assets, asset.filename)))),
            },
        }
    }
}

/// Whether no two of `assets` come from the same reference.
pub open spec fn distinct_asset_links(assets: Seq<AssetView>) -> bool {
    forall|i: int, j: int|
        0 <= i < j < assets.len() ==> (#[trigger] assets[i]).original_link != (
        #[trigger] assets[j]).original_link
}

/// The length of the longest name among `assets`.
pub open spec fn longest_name(assets: Seq<AssetView>) -> nat
    decreases assets.len(),
{
    if assets.len() == 0 {
        0
    } else if assets.last().filename.len() > longest_name(assets.drop_last()) {
        assets.last().filename.len()
    } else {
        longest_name(assets.drop_last())
    }
}

/// A name for a new asset that none of `assets` has: `name` itself where it is
/// free, else `name` after as many `_` as make it longer than every name
/// among `assets`.
pub open spec fn free_name(assets: Seq<AssetView>, name: Seq<char>) -> Seq<char> {
    if has_filename(assets, name) {
        repeated(seq!['_'], (longest_name(assets) + 1 - name.len()) as nat) + name
    } else {
        name
    }
}

/// `asset` under the name `filename`.
pub open spec fn renamed(asset: AssetView, filename: Seq<char>) -> AssetView {
    AssetView {
        original_link: asset.original_link,
        filename,
        mimetype: asset.mimetype,
        source: asset.source,
        found: asset.found,
        content: asset.content,
    }
}

/// No name among `assets` is longer than the longest.
pub proof fn lemma_longest_name(assets: Seq<AssetView>, index: int)
    requires
        0 <= index < assets.len(),
    ensures
        assets[index].filename.len() <= longest_name(assets),
    decreases assets.len(),
{
    if index < assets.len() - 1 {
        lemma_longest_name(assets.drop_last(), index);
    }
}

/// A character written `count` times is `count` characters long.
pub proof fn lemma_repeated_len(c: char, count: nat)
    ensures
        repeated(seq![c], count).len() == count,
    decreases count,
{
    if count > 0 {
        lemma_repeated_len(c, (count - 1) as nat);
    }
}

/// The name that `free_name` gives is free: none of `assets` has it.
pub proof fn lemma_free_name_is_free(assets: Seq<AssetView>, name: Seq<char>)
    ensures
        !has_filename(assets, free_name(assets, name)),
{
    if has_filename(assets, name) {
        let taken = choose|i: int| 0 <= i < assets.len() && (#[trigger] assets[i]).filename == name;
        lemma_longest_name(assets, taken);
        let count = (longest_name(assets) + 1 - name.len()) as nat;
        lemma_repeated_len('_', count);
        assert(free_name(assets, name).len() == longest_name(assets) + 1);
        assert forall|i: int| 0 <= i < assets.len() implies (#[trigger] assets[i]).filename
            != free_name(assets, name) by {
            lemma_longest_name(assets, i);
        }
    }
}

/// The links of a page made of the chapter at `chapter`: one for each asset,
/// from its reference to its file at the root of the archive.
pub open spec fn asset_links(assets: Seq<AssetView>, chapter: Seq<char>) -> Seq<(Seq<char>, Seq<char>)> {
    assets.map_values(
        |asset: AssetView| (asset.original_link, relative_to_root(chapter, asset.filename)),
    )
}

/// References that were found stay found, and what is found was there before
/// or is one of the links.
pub proof fn lemma_with_links(found: Seq<ReferenceView>, chapter: Seq<char>, links: Seq<Seq<char>>)
    requires
        distinct_links(found),
    ensures
        distinct_links(with_links(found, chapter, links)),
        found.len() <= with_links(found, chapter, links).len(),
        forall|i: int| 0 <= i < found.len() ==> with_links(found, chapter, links)[i] == found[i],
        forall|i: int|
            found.len() <= i < with_links(found, chapter, links).len() ==> links.contains(
                (#[trigger] with_links(found, chapter, links)[i]).link,
            ) && with_links(found, chapter, links)[i].chapter == chapter,
        forall|k: int|
            0 <= k < links.len() ==> has_link(with_links(found, chapter, links), #[trigger] links[k]),
    decreases links.len(),
{
    if links.len() > 0 {
        let head = links.drop_last();
        lemma_with_links(found, chapter, head);
        let before = with_links(found, chapter, head);
        let after = with_links(found, chapter, links);
        assert forall|i: int| found.len() <= i < after.len() implies links.contains(
            (#[trigger] after[i]).link,
        ) && after[i].chapter == chapter by {
            if i < before.len() {
                let k = choose|k: int| 0 <= k < head.len() && head[k] == before[i].link;
                assert(links[k] == before[i].link);
            } else {
                assert(links[links.len() - 1] == after[i].link);
            }
        }
        assert forall|k: int| 0 <= k < links.len() implies has_link(after, #[trigger] links[k]) by {
            if k < head.len() {
                assert(head[k] == links[k]);
                let i = choose|i: int| 0 <= i < before.len() && (#[trigger] before[i]).link == head[k];
                assert(after[i].link == links[k]);
            } else if has_link(before, links.last()) {
                let i = choose|i: int|
                    0 <= i < before.len() && (#[trigger] before[i]).link == links.last();
                assert(after[i].link == links[k]);
            } else {
                assert(after[after.len() - 1].link == links[k]);
            }
        }
    }
}

/// No reference is found twice, every reference that is found occurs in a
/// chapter with a source path, and every image of such a chapter is found.
pub proof fn lemma_references(chapters: Seq<Chapter>)
    ensures
        distinct_links(references_in(chapters)),
        forall|i: int|
            0 <= i < references_in(chapters).len() ==> occurs_in(
                chapters,
                (#[trigger] references_in(chapters)[i]).link,
            ),
        forall|index: int, link: Seq<char>| #[trigger]
            chapter_holds(chapters, index, link) ==> has_link(references_in(chapters), link),
    decreases chapters.len(),
{
    if chapters.len() > 0 {
        let head = chapters.drop_last();
        let last = chapters.last();
        lemma_references(head);
        let before = references_in(head);
        let after = references_in(chapters);
        match last.path {
            Some(path) => {
                lemma_with_links(before, path@, markdown_images(last.content@));
            },
            None => {},
        }
        assert forall|i: int| 0 <= i < after.len() implies occurs_in(
            chapters,
            (#[trigger] after[i]).link,
        ) by {
            if i < before.len() {
                assert(after[i] == before[i]);
                let index = choose|index: int| chapter_holds(head, index, before[i].link);
                assert(chapter_holds(chapters, index, after[i].link));
            } else {
                assert(chapter_holds(chapters, chapters.len() - 1, after[i].link));
            }
        }
        assert forall|index: int, link: Seq<char>| #[trigger]
            chapter_holds(chapters, index, link) implies has_link(after, link) by {
            if index < head.len() {
                assert(chapter_holds(head, index, link));
                let i = choose|i: int| 0 <= i < before.len() && (#[trigger] before[i]).link == link;
                assert(after[i].link == link);
            } else {
                let images = markdown_images(last.content@);
                let k = choose|k: int| 0 <= k < images.len() && images[k] == link;
                assert(has_link(after, images[k]));
            }
        }
    }
}

/// The assets stand in the order of their references, each under the name of
/// its reference or, where an earlier asset has that name, under a free one;
/// no two of them share a name.
pub proof fn lemma_resolved_assets(
    references: Seq<ReferenceView>,
    root: Seq<char>,
    src: Seq<char>,
    resources: Resources,
)
    ensures
        resolved_assets(references, root, src, resources) matches Ok(assets) ==> {
            &&& assets.len() == references.len()
            &&& distinct_filenames(assets)
            &&& forall|i: int|
                0 <= i < assets.len() ==> (#[trigger] assets[i]).original_link == references[i].link
                    && assets[i].filename == free_name(
                    assets.take(i),
                    asset_filename(references[i].link),
                )
        },
    decreases references.len(),
{
    if references.len() > 0 {
        lemma_resolved_assets(references.drop_last(), root, src, resources);
        match resolved_assets(references, root, src, resources) {
            Ok(assets) => {
                let before = resolved_assets(references.drop_last(), root, src, resources)->Ok_0;
                let last = resolved_asset(references.last(), root, src, resources)->Ok_0;
                lemma_free_name_is_free(before, last.filename);
                assert(assets.drop_last() == before);
                assert forall|i: int| 0 <= i < assets.len() implies (#[trigger] assets[i]).original_link
                    == references[i].link && assets[i].filename == free_name(
                    assets.take(i),
                    asset_filename(references[i].link),
                ) by {
                    if i < before.len() {
                        assert(assets[i] == before[i]);
                        assert(assets.take(i) == before.take(i));
                    } else {
                        assert(assets.take(i) == before);
                    }
                }
                assert forall|i: int, j: int| 0 <= i < j < assets.len() implies (
                #[trigger] assets[i]).filename != (#[trigger] assets[j]).filename by {
                    if j < before.len() {
                        assert(before[i].filename != before[j].filename);
                    } else {
                        assert(before[i].filename != assets[j].filename);
                    }
                }
            },
            Err(_) => {},
        }
    }
}

/// A reference that occurs in the book, in however many chapters, has exactly
/// one asset: one of the assets has the reference as its link, and no other
/// asset has that link or the name of that asset.
pub proof fn lemma_one_asset_per_reference(
    chapters: Seq<Chapter>,
    root: Seq<char>,
    src: Seq<char>,
    resources: Resources,
    link: Seq<char>,
)
    requires
        occurs_in(chapters, link),
        resolved_assets(references_in(chapters), root, src, resources) is Ok,
    ensures
        ({
            let assets = resolved_assets(references_in(chapters), root, src, resources)->Ok_0;
            exists|i: int|
                {
                    &&& 0 <= i < assets.len()
                    &&& (#[trigger] assets[i]).original_link == link
                    &&& forall|j: int|
                        0 <= j < assets.len() && j != i ==> (#[trigger] assets[j]).original_link
                            != link && assets[j].filename != assets[i].filename
                }
        }),
{
    let references = references_in(chapters);
    let assets = resolved_assets(references, root, src, resources)->Ok_0;
    lemma_references(chapters);
    lemma_resolved_assets(references, root, src, resources);
    let index = choose|index: int| chapter_holds(chapters, index, link);
    assert(chapter_holds(chapters, index, link));
    let i = choose|i: int| 0 <= i < references.len() && (#[trigger] references[i]).link == link;
    assert(assets[i].original_link == link);
    assert forall|j: int| 0 <= j < assets.len() && j != i implies (#[trigger] assets[j]).original_link
        != link && assets[j].filename != assets[i].filename by {
        if j < i {
            assert(references[j].link != references[i].link);
            assert(assets[j].filename != assets[i].filename);
        } else {
            assert(references[i].link != references[j].link);
            assert(assets[i].filename != assets[j].filename);
        }
    }
}

/// In a page, the reference of an asset leads to the file of the asset at the
/// root of the archive, whether or not the asset has bytes.
pub proof fn lemma_reference_leads_to_asset(assets: Seq<AssetView>, chapter: Seq<char>, index: int)
    requires
        0 <= index < assets.len(),
        forall|i: int, j: int|
            0 <= i < j < assets.len() ==> (#[trigger] assets[i]).original_link != (
            #[trigger] assets[j]).original_link,
    ensures
        crate::markdown::link_target(asset_links(assets, chapter), assets[index].original_link)
            == Some(relative_to_root(chapter, assets[index].filename)),
    decreases index,
{
    let links = asset_links(assets, chapter);
    if index > 0 {
        assert(assets[0].original_link != assets[index].original_link);
        assert(links.drop_first() =~= asset_links(assets.drop_first(), chapter));
        assert(assets.drop_first()[index - 1] == assets[index]);
        assert forall|i: int, j: int| 0 <= i < j < assets.drop_first().len() implies (
        #[trigger] assets.drop_first()[i]).original_link != (
        #[trigger] assets.drop_first()[j]).original_link by {
            assert(assets[i + 1].original_link != assets[j + 1].original_link);
        }
        lemma_reference_leads_to_asset(assets.drop_first(), chapter, index - 1);
    }
}

/// Assets of the same names give a new asset the same name.
pub proof fn lemma_same_names(first: Seq<AssetView>, second: Seq<AssetView>, name: Seq<char>)
    requires
        first.len() == second.len(),
        forall|i: int| 0 <= i < first.len() ==> (#[trigger] first[i]).filename == second[i].filename,
    ensures
        longest_name(first) == longest_name(second),
        has_filename(first, name) == has_filename(second, name),
        free_name(first, name) == free_name(second, name),
    decreases first.len(),
{
    if first.len() > 0 {
        assert forall|i: int| 0 <= i < first.drop_last().len() implies (
        #[trigger] first.drop_last()[i]).filename == second.drop_last()[i].filename by {
            assert(first[i].filename == second[i].filename);
        }
        lemma_same_names(first.drop_last(), second.drop_last(), name);
        assert(first.last().filename == second.last().filename) by {
            assert(first[first.len() - 1].filename == second[first.len() - 1].filename);
        }
    }
    if has_filename(first, name) {
        let i = choose|i: int| 0 <= i < first.len() && (#[trigger] first[i]).filename == name;
        assert(second[i].filename == name);
    }
    if has_filename(second, name) {
        let i = choose|i: int| 0 <= i < second.len() && (#[trigger] second[i]).filename == name;
        assert(first[i].filename == name);
    }
}

/// What comes back from the network decides neither whether the references
/// resolve nor how the assets are named: with the same files, two worlds give
/// the same error or assets of the same names.
pub proof fn lemma_fetching_never_decides(
    references: Seq<ReferenceView>,
    root: Seq<char>,
    src: Seq<char>,
    one: Resources,
    other: Resources,
)
    requires
        one.files@ == other.files@,
    ensures
        match (
            resolved_assets(references, root, src, one),
            resolved_assets(references, root, src, other),
        ) {
            (Ok(first), Ok(second)) => first.len() == second.len() && forall|i: int|
                0 <= i < first.len() ==> (#[trigger] first[i]).filename == second[i].filename,
            (Err(first), Err(second)) => first == second,
            _ => false,
        },
    decreases references.len(),
{
    if references.len() > 0 {
        lemma_fetching_never_decides(references.drop_last(), root, src, one, other);
        match (
            resolved_assets(references.drop_last(), root, src, one),
            resolved_assets(references.drop_last(), root, src, other),
        ) {
            (Ok(first), Ok(second)) => {
                match (
                    resolved_asset(references.last(), root, src, one),
                    resolved_asset(references.last(), root, src, other),
                ) {
                    (Ok(a), Ok(b)) => {
                        assert(a.filename == b.filename);
                        lemma_same_names(first, second, a.filename);
                    },
                    _ => {},
                }
            },
            _ => {},
        }
    }
}

/// A path among the references for which no file is found ends the build,
/// wherever among the references it stands: the references do not resolve.
pub proof fn lemma_missing_file_fails_all(
    references: Seq<ReferenceView>,
    root: Seq<char>,
    src: Seq<char>,
    resources: Resources,
    index: int,
)
    requires
        0 <= index < references.len(),
        !is_remote(references[index].link),
        forall|i: int|
            0 <= i < 3 ==> file_state(
                resources.files@,
                #[trigger] asset_candidates(
                    root,
                    src,
                    references[index].chapter,
                    references[index].link,
                )[i],
            ) is Missing,
    ensures
        resolved_assets(references, root, src, resources) is Err,
{
    let upto = references.take(index + 1);
    assert(upto.last() == references[index]);
    lemma_missing_file_fails(references[index], root, src, resources);
    assert(resolved_assets(upto, root, src, resources) is Err);
    lemma_resolved_prefix_error(references, index + 1, root, src, resources);
}

/// A URL that could not be fetched does not end the build: it resolves to an
/// asset without bytes, under the name that the URL gives it.
pub proof fn lemma_unreachable_resolves(
    reference: ReferenceView,
    root: Seq<char>,
    src: Seq<char>,
    resources: Resources,
)
    requires
        is_remote(reference.link),
        fetch_state(resources.remote@, reference.link) is Unreachable,
    ensures
        resolved_asset(reference, root, src, resources) matches Ok(asset) && !asset.found
            && asset.filename == asset_filename(reference.link) && asset.content.len() == 0,
{
}

/// A path for which no file is found ends the build.
pub proof fn lemma_missing_file_fails(
    reference: ReferenceView,
    root: Seq<char>,
    src: Seq<char>,
    resources: Resources,
)
    requires
        !is_remote(reference.link),
        forall|i: int|
            0 <= i < 3 ==> file_state(
                resources.files@,
                #[trigger] asset_candidates(root, src, reference.chapter, reference.link)[i],
            ) is Missing,
    ensures
        resolved_asset(reference, root, src, resources) == Err::<AssetView, ErrorView>(
            ErrorView::AssetFileNotFound(reference.link),
        ),
{
    let candidates = asset_candidates(root, src, reference.chapter, reference.link);
    lemma_first_found_bounds(resources.files@, candidates, 0);
}


/// Once the references up to some place do not resolve, no more of them do:
/// the error of all of them is the error of the first that fails.
pub proof fn lemma_resolved_prefix_error(
    references: Seq<ReferenceView>,
    count: int,
    root: Seq<char>,
    src: Seq<char>,
    resources: Resources,
)
    requires
        0 <= count <= references.len(),
    ensures
        resolved_assets(references.take(count), root, src, resources) is Err ==> resolved_assets(
            references,
            root,
            src,
            resources,
        ) == resolved_assets(references.take(count), root, src, resources),
    decreases references.len() - count,
{
    if count < references.len() {
        assert(references.take(count + 1).drop_last() == references.take(count));
        lemma_resolved_prefix_error(references, count + 1, root, src, resources);
    } else {
        assert(references.take(count) == references);
    }
}

/// Tells whether one of `found` has the link `link`.
fn contains_link(found: &Vec<Reference>, link: &String) -> (held: bool)
    ensures
        held == has_link(reference_views(found@), link@),
{
    let mut i: usize = 0;
    while i < found.len()
        invariant
            i <= found.len(),
            forall|j: int| 0 <= j < i ==> (#[trigger] reference_views(found@)[j]).link != link@,
        decreases found.len() - i,
    {
        if found[i].link == *link {
            assert(reference_views(found@)[i as int].link == link@);
            return true;
        }
        i = i + 1;
    }
    false
}

/// Finds the references of the book: the destinations of the images of every
/// chapter that has a source path, each once, in the order of the document.
pub fn find_references(book: &Book) -> (found: Vec<Reference>)
    ensures
        reference_views(found@) == references_in(book.chapters()),
        distinct_links(reference_views(found@)),
{
    let chapters = book.iter();
    let ghost all = book.chapters();
    let mut found: Vec<Reference> = Vec::new();
    let mut i: usize = 0;
    assert(all.take(0) == Seq::<Chapter>::empty());
    while i < chapters.len()
        invariant
            i <= chapters.len(),
            chapters@.map_values(|chapter: &Chapter| *chapter) == all,
            reference_views(found@) == references_in(all.take(i as int)),
        decreases chapters.len() - i,
    {
        let chapter = chapters[i];
        assert(*chapter == all[i as int]);
        assert(all.take(i + 1).drop_last() == all.take(i as int));
        assert(all.take(i + 1).last() == all[i as int]);
        match &chapter.path {
            Some(path) => {
                let images = find_images(chapter.content.as_str());
                let ghost links = markdown_images(chapter.content@);
                let ghost before = references_in(all.take(i as int));
                let mut k: usize = 0;
                assert(links.take(0) == Seq::<Seq<char>>::empty());
                while k < images.len()
                    invariant
                        k <= images.len(),
                        views(images@) == links,
                        reference_views(found@) == with_links(before, path@, links.take(k as int)),
                    decreases images.len() - k,
                {
                    assert(links.take(k + 1).drop_last() == links.take(k as int));
                    assert(links.take(k + 1).last() == links[k as int]);
                    assert(views(images@)[k as int] == images@[k as int]@);
                    if !contains_link(&found, &images[k]) {
                        let ghost held = reference_views(found@);
                        let reference = Reference { link: images[k].clone(), chapter: path.clone() };
                        found.push(reference);
                        assert(reference_views(found@) == held.push(reference@));
                    }
                    k = k + 1;
                }
                assert(links.take(links.len() as int) == links);
            },
            None => {},
        }
        i = i + 1;
    }
    assert(all.take(all.len() as int) == all);
    proof {
        lemma_references(all);
    }
    found
}

/// Lists the places where the file of a path written in a chapter is looked
/// for.
pub fn candidates_for_asset(root: &str, src: &str, chapter: &str, link: &str) -> (candidates: Vec<
    String,
>)
    ensures
        views(candidates@) == asset_candidates(root@, src@, chapter@, link@),
{
    let sources = path_join(root, src);
    let beside = path_join(sources.as_str(), path_parent(chapter).as_str());
    let mut candidates: Vec<String> = Vec::new();
    candidates.push(path_join(beside.as_str(), link));
    candidates.push(path_join(sources.as_str(), link));
    candidates.push(path_join(root, link));
    assert(views(candidates@) =~= asset_candidates(root@, src@, chapter@, link@));
    candidates
}

/// Lists the places where a file named in the settings of the book is looked
/// for.
pub fn candidates_for_resource(root: &str, src: &str, path: &str) -> (candidates: Vec<String>)
    ensures
        views(candidates@) == resource_candidates(root@, src@, path@),
{
    let sources = path_join(root, src);
    let mut candidates: Vec<String> = Vec::new();
    candidates.push(concat(path, ""));
    candidates.push(path_join(sources.as_str(), path));
    candidates.push(path_join(root, path));
    proof {
        reveal_strlit("");
        assert(path@ + ""@ =~= path@);
    }
    assert(views(candidates@) =~= resource_candidates(root@, src@, path@));
    candidates
}

/// Resolves one reference against what the world outside holds.
pub fn resolve_one(reference: &Reference, root: &str, src: &str, resources: &Resources) -> (asset:
    Result<Asset, Error>)
    ensures
        match asset {
            Ok(resolved) => resolved_asset(reference@, root@, src@, *resources) == Ok::<
                AssetView,
                ErrorView,
            >(resolved@),
            Err(error) => resolved_asset(reference@, root@, src@, *resources) == Err::<
                AssetView,
                ErrorView,
            >(error@),
        },
{
    let filename = name_asset(reference.link.as_str());
    if reference_is_remote(reference.link.as_str()) {
        match resources.fetched(&reference.link) {
            FetchState::Fetched { content, content_type } => {
                let mimetype = match content_type {
                    Some(given) => if given.as_str().unicode_len() > 0 {
                        given.clone()
                    } else {
                        guess_mime(filename.as_str())
                    },
                    None => guess_mime(filename.as_str()),
                };
                Ok(
                    Asset {
                        original_link: reference.link.clone(),
                        filename,
                        mimetype,
                        source: AssetKind::Remote,
                        found: true,
                        content: slice_to_vec(content.as_slice()),
                    },
                )
            },
            FetchState::Unreachable => {
                let mimetype = guess_mime(filename.as_str());
                Ok(
                    Asset {
                        original_link: reference.link.clone(),
                        filename,
                        mimetype,
                        source: AssetKind::Remote,
                        found: false,
                        content: Vec::new(),
                    },
                )
            },
        }
    } else {
        let candidates = candidates_for_asset(
            root,
            src,
            reference.chapter.as_str(),
            reference.link.as_str(),
        );
        match resources.locate(&candidates) {
            None => Err(Error::AssetFileNotFound(reference.link.clone())),
            Some(index) => {
                assert(views(candidates@)[index as int] == candidates@[index as int]@);
                match resources.file(&candidates[index]) {
                    FileState::Present(content) => {
                        let mimetype = guess_mime(filename.as_str());
                        Ok(
                            Asset {
                                original_link: reference.link.clone(),
                                filename,
                                mimetype,
                                source: AssetKind::Local(candidates[index].clone()),
                                found: true,
                                content: slice_to_vec(content.as_slice()),
                            },
                        )
                    },
                    _ => Err(Error::AssetOpen(candidates[index].clone())),
                }
            },
        }
    }
}

/// Tells whether one of `assets` has the name `filename`.
fn contains_filename(assets: &Vec<Asset>, filename: &String) -> (held: bool)
    ensures
        held == has_filename(asset_views(assets@), filename@),
{
    let mut i: usize = 0;
    while i < assets.len()
        invariant
            i <= assets.len(),
            forall|j: int| 0 <= j < i ==> (#[trigger] asset_views(assets@)[j]).filename != filename@,
        decreases assets.len() - i,
    {
        if assets[i].filename == *filename {
            assert(asset_views(assets@)[i as int].filename == filename@);
            return true;
        }
        i = i + 1;
    }
    false
}

/// Makes a name that is longer than every name among `assets`: `name` after as
/// many `_` as it takes.
fn longer_name(assets: &Vec<Asset>, name: &str) -> (longer: String)
    requires
        has_filename(asset_views(assets@), name@),
    ensures
        longer@ == repeated(
            seq!['_'],
            (longest_name(asset_views(assets@)) + 1 - name@.len()) as nat,
        ) + name@,
{
    let ghost views = asset_views(assets@);
    let mut longest: usize = 0;
    let mut i: usize = 0;
    assert(views.take(0) == Seq::<AssetView>::empty());
    while i < assets.len()
        invariant
            i <= assets.len(),
            views == asset_views(assets@),
            longest == longest_name(views.take(i as int)),
        decreases assets.len() - i,
    {
        assert(views.take(i + 1).drop_last() == views.take(i as int));
        assert(views.take(i + 1).last() == assets@[i as int]@);
        let length = assets[i].filename.as_str().unicode_len();
        if length > longest {
            longest = length;
        }
        i = i + 1;
    }
    assert(views.take(views.len() as int) == views);
    let length = name.unicode_len();
    proof {
        let taken = choose|i: int| 0 <= i < views.len() && (#[trigger] views[i]).filename == name@;
        lemma_longest_name(views, taken);
    }
    let mut longer: Vec<char> = Vec::new();
    longer.push('_');
    assert(longer@ == repeated(seq!['_'], 0) + seq!['_']);
    let mut count: usize = 0;
    while count < longest - length
        invariant
            length <= longest,
            count <= longest - length,
            longer@ == repeated(seq!['_'], (count + 1) as nat),
        decreases longest - length - count,
    {
        longer.push('_');
        count = count + 1;
        assert(longer@ == repeated(seq!['_'], count as nat) + seq!['_']);
    }
    push_chars(&mut longer, name);
    string_of(&longer)
}

/// Resolves the references of a book, in order. Every reference gets one
/// asset, and no two assets share a name.
pub fn resolve(references: &Vec<Reference>, root: &str, src: &str, resources: &Resources) -> (assets:
    Result<Vec<Asset>, Error>)
    ensures
        match assets {
            Ok(resolved) => resolved_assets(reference_views(references@), root@, src@, *resources)
                == Ok::<Seq<AssetView>, ErrorView>(asset_views(resolved@)) && distinct_filenames(
                asset_views(resolved@),
            ) && resolved.len() == references.len(),
            Err(error) => resolved_assets(reference_views(references@), root@, src@, *resources)
                == Err::<Seq<AssetView>, ErrorView>(error@),
        },
{
    let ghost all = reference_views(references@);
    let mut assets: Vec<Asset> = Vec::new();
    let mut i: usize = 0;
    assert(all.take(0) == Seq::<ReferenceView>::empty());
    assert(asset_views(assets@) == Seq::<AssetView>::empty());
    while i < references.len()
        invariant
            i <= references.len(),
            all == reference_views(references@),
            resolved_assets(all.take(i as int), root@, src@, *resources) == Ok::<
                Seq<AssetView>,
                ErrorView,
            >(asset_views(assets@)),
        decreases references.len() - i,
    {
        assert(all.take(i + 1).drop_last() == all.take(i as int));
        assert(all.take(i + 1).last() == references@[i as int]@);
        proof {
            lemma_resolved_prefix_error(all, i + 1, root@, src@, *resources);
        }
        let asset = match resolve_one(&references[i], root, src, resources) {
            Ok(asset) => asset,
            Err(error) => {
                return Err(error);
            },
        };
        let ghost held = asset_views(assets@);
        let ghost found = asset@;
        let mut asset = asset;
        if contains_filename(&assets, &asset.filename) {
            asset.filename = longer_name(&assets, asset.filename.as_str());
        }
        assert(asset@ == renamed(found, free_name(held, found.filename)));
        assets.push(asset);
        assert(asset_views(assets@) == held.push(asset@));
        i = i + 1;
    }
    assert(all.take(all.len() as int) == all);
    proof {
        lemma_resolved_assets(all, root@, src@, *resources);
    }
    Ok(assets)
}

/// Makes the links of the page of the chapter at `chapter`: one for each asset,
/// from its reference to its file at the root of the archive.
pub fn links_for(assets: &Vec<Asset>, chapter: &str) -> (links: Vec<Link>)
    ensures
        link_views(links@) == asset_links(asset_views(assets@), chapter@),
{
    let mut links: Vec<Link> = Vec::new();
    let mut i: usize = 0;
    while i < assets.len()
        invariant
            i <= assets.len(),
            links.len() == i,
            forall|j: int|
                0 <= j < i ==> (#[trigger] links@[j]).from@ == assets@[j].original_link@ && links@[j].to@
                    == relative_to_root(chapter@, assets@[j].filename@),
        decreases assets.len() - i,
    {
        links.push(
            Link {
                from: assets[i].original_link.clone(),
                to: link_from(chapter, assets[i].filename.as_str()),
            },
        );
        i = i + 1;
    }
    assert(link_views(links@) =~= asset_links(asset_views(assets@), chapter@));
    links
}

} // verus!

