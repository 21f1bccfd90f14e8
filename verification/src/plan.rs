//! What becomes of a build: what it writes into the archive, step by step, and
//! the error that ends it, if one does. All of it is decided by the book, by
//! what the world outside holds, and by the answers of the archive, the page
//! template and the preprocessors. Also what the build looks for in the world
//! outside.

use vstd::prelude::*;
use vstd::utf8::encode_utf8;
use crate::archive::{
    archive_refusal, cover_entry, distinct_paths, page_entry, resource_entry, stylesheet_entry,
    ArchiveEntry,
};
use crate::book::{pages_in, pages_under, BookItem, Chapter, RenderContext};
use crate::errors::ErrorView;
use crate::files::{
    fetch_state, file_state, first_found_from, lemma_first_found_bounds, views, FileEntry, FileState,
    RemoteEntry, Resources,
};
use crate::generator::{chapter_page, processed, Preprocessor};
use crate::naming::{is_remote, reference_is_remote};
use crate::paths::{path_join, with_extension, PAGE_EXTENSION};
use crate::resources::{
    asset_candidates, candidates_for_asset, candidates_for_resource, find_references, guessed_mime,
    reference_views, references_in, resolved_assets, resource_candidates, AssetView, ReferenceView,
};
use crate::stylesheet::{composed, stylesheet_candidates, stylesheet_of, stylesheet_start};

verus! {

/// What a step of a build does: the entries it writes into the archive, in
/// order, and the error that ends it, if one does. A step that fails has
/// written what it wrote before it failed.
pub ghost struct Written {
    pub entries: Seq<ArchiveEntry>,
    pub failure: Option<ErrorView>,
}

/// A step that writes nothing and succeeds.
pub open spec fn nothing() -> Written {
    Written { entries: Seq::empty(), failure: None }
}

/// A step that writes nothing and fails with `error`.
pub open spec fn failed(error: ErrorView) -> Written {
    Written { entries: Seq::empty(), failure: Some(error) }
}

/// The step `first`, which succeeds, followed by the step `second`.
pub open spec fn followed(first: Written, second: Written) -> Written {
    Written { entries: first.entries + second.entries, failure: second.failure }
}

/// Handing `entry` to an archive that holds `held`: the archive takes it, or
/// refuses it with a message that becomes `EpubBuilder`.
pub open spec fn entry_written(held: Seq<ArchiveEntry>, entry: ArchiveEntry) -> Written {
    match archive_refusal(held, entry.path, entry.content) {
        None => Written { entries: seq![entry], failure: None },
        Some(reason) => failed(ErrorView::EpubBuilder(reason)),
    }
}

/// Handing `entries` to an archive that holds `held`, one after the other, up
/// to the first that it refuses.
pub open spec fn entries_written(held: Seq<ArchiveEntry>, entries: Seq<ArchiveEntry>) -> Written
    decreases entries.len(),
{
    if entries.len() == 0 {
        nothing()
    } else {
        let before = entries_written(held, entries.drop_last());
        if before.failure is Some {
            before
        } else {
            followed(before, entry_written(held + before.entries, entries.last()))
        }
    }
}

/// The assets that the references of the book resolve to.
pub open spec fn expected_assets(context: RenderContext, resources: Resources) -> Result<
    Seq<AssetView>,
    ErrorView,
> {
    resolved_assets(
        references_in(context.book.chapters()),
        context.root@,
        context.config.src@,
        resources,
    )
}

/// The place and the bytes of the file that a path of the settings leads to:
/// the first of its candidates at which anything is found. Where nothing is
/// found there is `AssetOpen` with the path; where what is found cannot be
/// read, `AssetOpen` with the place.
pub open spec fn located_file(context: RenderContext, path: Seq<char>, files: Seq<FileEntry>) -> Result<
    (Seq<char>, Seq<u8>),
    ErrorView,
> {
    let candidates = resource_candidates(context.root@, context.config.src@, path);
    match first_found_from(files, candidates, 0) {
        None => Err(ErrorView::AssetOpen(path)),
        Some(index) => match file_state(files, candidates[index]) {
            FileState::Present(content) => Ok((candidates[index], content@)),
            _ => Err(ErrorView::AssetOpen(candidates[index])),
        },
    }
}

/// Writing the file at `path`, a path of the settings, under that path and
/// with the media type of the file that was found. `cover` tells whether it
/// is written as the cover image.
pub open spec fn file_written(
    context: RenderContext,
    held: Seq<ArchiveEntry>,
    path: Seq<char>,
    cover: bool,
    files: Seq<FileEntry>,
) -> Written {
    match located_file(context, path, files) {
        Err(error) => failed(error),
        Ok(found) => entry_written(
            held,
            if cover {
                cover_entry(path, guessed_mime(found.0), found.1)
            } else {
                resource_entry(path, guessed_mime(found.0), found.1)
            },
        ),
    }
}

/// Writing the cover image: nothing for a book without one.
pub open spec fn cover_written(context: RenderContext, held: Seq<ArchiveEntry>, files: Seq<FileEntry>) -> Written {
    match context.epub.cover_image {
        None => nothing(),
        Some(path) => file_written(context, held, path@, true, files),
    }
}

/// Composing the stylesheet and writing it as `stylesheet.css`.
pub open spec fn stylesheet_written(
    context: RenderContext,
    held: Seq<ArchiveEntry>,
    files: Seq<FileEntry>,
) -> Written {
    match stylesheet_of(context.epub, context.root@, files) {
        Err(error) => failed(error),
        Ok(bytes) => entry_written(held, stylesheet_entry(bytes)),
    }
}

/// The entries of `assets`: each under its name, with its media type and
/// bytes, in order.
pub open spec fn asset_entries(assets: Seq<AssetView>) -> Seq<ArchiveEntry> {
    assets.map_values(
        |asset: AssetView| resource_entry(asset.filename, asset.mimetype, asset.content),
    )
}

/// Writing the files at `paths`, paths of the settings, in order, up to the
/// first that cannot be had or that the archive refuses.
pub open spec fn resources_written(
    context: RenderContext,
    held: Seq<ArchiveEntry>,
    paths: Seq<Seq<char>>,
    files: Seq<FileEntry>,
) -> Written
    decreases paths.len(),
{
    if paths.len() == 0 {
        nothing()
    } else {
        let before = resources_written(context, held, paths.drop_last(), files);
        if before.failure is Some {
            before
        } else {
            followed(before, file_written(context, held + before.entries, paths.last(), false, files))
        }
    }
}

/// The entry of the page `page` of `chapter`.
pub open spec fn chapter_entry(chapter: Chapter, page: Seq<char>) -> ArchiveEntry
    recommends
        chapter.path is Some,
{
    page_entry(
        with_extension(chapter.path->0@, PAGE_EXTENSION@),
        chapter.title(),
        chapter.level(),
        encode_utf8(page),
    )
}

/// Writing the page of `chapter`, a chapter with a source path: its markdown
/// goes through the preprocessors, what comes out is rendered, and the page is
/// handed to the archive. A preprocessor that fails gives `Preprocess`, a
/// template that fails gives `Render`, each with the message.
pub open spec fn page_written<P: Preprocessor>(
    context: RenderContext,
    assets: Seq<AssetView>,
    preprocessors: Seq<P>,
    held: Seq<ArchiveEntry>,
    chapter: Chapter,
) -> Written
    recommends
        chapter.path is Some,
{
    match processed(preprocessors, chapter.name@, chapter.content@) {
        Err(reason) => failed(ErrorView::Preprocess(reason)),
        Ok(content) => match chapter_page(context, assets, chapter, content) {
            Err(reason) => failed(ErrorView::Render(reason)),
            Ok(page) => entry_written(held, chapter_entry(chapter, page)),
        },
    }
}

/// Writing the pages of the chapters in and below `items`, in the order of the
/// document, up to the first that fails. A chapter without a source path gets
/// no page; the chapters below it get theirs.
pub open spec fn items_written<P: Preprocessor>(
    context: RenderContext,
    assets: Seq<AssetView>,
    preprocessors: Seq<P>,
    held: Seq<ArchiveEntry>,
    items: Seq<BookItem>,
) -> Written
    decreases items, 1nat,
{
    if items.len() == 0 {
        nothing()
    } else {
        let before = items_written(context, assets, preprocessors, held, items.drop_last());
        if before.failure is Some {
            before
        } else {
            followed(
                before,
                item_written(context, assets, preprocessors, held + before.entries, items.last()),
            )
        }
    }
}

/// Writing the page of the chapter that `item` is, if it is one with a source
/// path, and then the pages of the chapters below it.
pub open spec fn item_written<P: Preprocessor>(
    context: RenderContext,
    assets: Seq<AssetView>,
    preprocessors: Seq<P>,
    held: Seq<ArchiveEntry>,
    item: BookItem,
) -> Written
    decreases item, 0nat,
{
    match item {
        BookItem::Chapter(chapter) => if chapter.path is Some {
            let page = page_written(context, assets, preprocessors, held, chapter);
            if page.failure is Some {
                page
            } else {
                followed(
                    page,
                    items_written(
                        context,
                        assets,
                        preprocessors,
                        held + page.entries,
                        chapter.sub_items@,
                    ),
                )
            }
        } else {
            items_written(context, assets, preprocessors, held, chapter.sub_items@)
        },
        _ => nothing(),
    }
}

/// Filling the archive once the assets are known: the pages of the chapters,
/// the cover image, the stylesheet, the assets and the files of the settings,
/// in this order, up to the first step that fails.
pub open spec fn filled<P: Preprocessor>(
    context: RenderContext,
    assets: Seq<AssetView>,
    preprocessors: Seq<P>,
    held: Seq<ArchiveEntry>,
    files: Seq<FileEntry>,
) -> Written {
    let pages = items_written(context, assets, preprocessors, held, context.book.sections@);
    if pages.failure is Some {
        pages
    } else {
        let cover = followed(pages, cover_written(context, held + pages.entries, files));
        if cover.failure is Some {
            cover
        } else {
            let stylesheet = followed(
                cover,
                stylesheet_written(context, held + cover.entries, files),
            );
            if stylesheet.failure is Some {
                stylesheet
            } else {
                let with_assets = followed(
                    stylesheet,
                    entries_written(held + stylesheet.entries, asset_entries(assets)),
                );
                if with_assets.failure is Some {
                    with_assets
                } else {
                    followed(
                        with_assets,
                        resources_written(
                            context,
                            held + with_assets.entries,
                            views(context.epub.additional_resources@),
                            files,
                        ),
                    )
                }
            }
        }
    }
}

/// A whole build on an archive that holds `held`: the references are resolved,
/// and their error is the error of the build; then the archive is filled.
pub open spec fn built<P: Preprocessor>(
    context: RenderContext,
    preprocessors: Seq<P>,
    held: Seq<ArchiveEntry>,
    resources: Resources,
) -> Written {
    match expected_assets(context, resources) {
        Err(error) => failed(error),
        Ok(assets) => filled(context, assets, preprocessors, held, resources.files@),
    }
}

/// Where the archive takes every one of `entries`, each is written once, in
/// order, and nothing else is.
pub proof fn lemma_entries_written_once(held: Seq<ArchiveEntry>, entries: Seq<ArchiveEntry>)
    ensures
        entries_written(held, entries).failure is None ==> entries_written(held, entries).entries
            == entries,
        entries_written(held, entries).entries.len() <= entries.len(),
    decreases entries.len(),
{
    if entries.len() > 0 {
        lemma_entries_written_once(held, entries.drop_last());
        let before = entries_written(held, entries.drop_last());
        if before.failure is None && entries_written(held, entries).failure is None {
            assert(entries.drop_last().push(entries.last()) == entries);
            assert(before.entries + seq![entries.last()] == before.entries.push(entries.last()));
        }
    }
}

/// Once handing over the first entries has failed, handing over all of them
/// fails alike.
pub proof fn lemma_entries_prefix_failure(held: Seq<ArchiveEntry>, entries: Seq<ArchiveEntry>, count: int)
    requires
        0 <= count <= entries.len(),
    ensures
        entries_written(held, entries.take(count)).failure is Some ==> entries_written(held, entries)
            == entries_written(held, entries.take(count)),
    decreases entries.len() - count,
{
    if count < entries.len() {
        assert(entries.take(count + 1).drop_last() == entries.take(count));
        lemma_entries_prefix_failure(held, entries, count + 1);
    } else {
        assert(entries.take(count) == entries);
    }
}

/// Once writing the first files has failed, writing all of them fails alike.
pub proof fn lemma_resources_prefix_failure(
    context: RenderContext,
    held: Seq<ArchiveEntry>,
    paths: Seq<Seq<char>>,
    count: int,
    files: Seq<FileEntry>,
)
    requires
        0 <= count <= paths.len(),
    ensures
        resources_written(context, held, paths.take(count), files).failure is Some
            ==> resources_written(context, held, paths, files) == resources_written(
            context,
            held,
            paths.take(count),
            files,
        ),
    decreases paths.len() - count,
{
    if count < paths.len() {
        assert(paths.take(count + 1).drop_last() == paths.take(count));
        lemma_resources_prefix_failure(context, held, paths, count + 1, files);
    } else {
        assert(paths.take(count) == paths);
    }
}

/// Once writing the pages of the first items has failed, writing the pages of
/// all of them fails alike.
pub proof fn lemma_items_prefix_failure<P: Preprocessor>(
    context: RenderContext,
    assets: Seq<AssetView>,
    preprocessors: Seq<P>,
    held: Seq<ArchiveEntry>,
    items: Seq<BookItem>,
    count: int,
)
    requires
        0 <= count <= items.len(),
    ensures
        items_written(context, assets, preprocessors, held, items.take(count)).failure is Some
            ==> items_written(context, assets, preprocessors, held, items) == items_written(
            context,
            assets,
            preprocessors,
            held,
            items.take(count),
        ),
    decreases items.len() - count,
{
    if count < items.len() {
        assert(items.take(count + 1).drop_last() == items.take(count));
        lemma_items_prefix_failure(context, assets, preprocessors, held, items, count + 1);
    } else {
        assert(items.take(count) == items);
    }
}

/// The pages that are written are the pages of the chapters with a source
/// path, in the order of the document: where writing the pages of `items`
/// succeeds, there is one entry for each such chapter, at the source path of
/// the chapter with the extension `html`, under its title and at its level;
/// where it fails, the entries written are the pages of the first of them.
pub proof fn lemma_items_written_are_pages<P: Preprocessor>(
    context: RenderContext,
    assets: Seq<AssetView>,
    preprocessors: Seq<P>,
    held: Seq<ArchiveEntry>,
    items: Seq<BookItem>,
)
    ensures
        ({
            let written = items_written(context, assets, preprocessors, held, items);
            &&& written.entries.len() <= pages_in(items).len()
            &&& written.failure is None ==> written.entries.len() == pages_in(items).len()
            &&& forall|k: int|
                0 <= k < written.entries.len() ==> (#[trigger] written.entries[k]).path
                    == with_extension(pages_in(items)[k].path->0@, PAGE_EXTENSION@) && pages_in(
                    items,
                )[k].path is Some
        }),
    decreases items, 1nat,
{
    if items.len() > 0 {
        let before = items_written(context, assets, preprocessors, held, items.drop_last());
        lemma_items_written_are_pages(context, assets, preprocessors, held, items.drop_last());
        if before.failure is None {
            lemma_item_written_is_pages(
                context,
                assets,
                preprocessors,
                held + before.entries,
                items.last(),
            );
        }
    }
}

/// The same for one item and what stands below it.
pub proof fn lemma_item_written_is_pages<P: Preprocessor>(
    context: RenderContext,
    assets: Seq<AssetView>,
    preprocessors: Seq<P>,
    held: Seq<ArchiveEntry>,
    item: BookItem,
)
    ensures
        ({
            let written = item_written(context, assets, preprocessors, held, item);
            &&& written.entries.len() <= pages_under(item).len()
            &&& written.failure is None ==> written.entries.len() == pages_under(item).len()
            &&& forall|k: int|
                0 <= k < written.entries.len() ==> (#[trigger] written.entries[k]).path
                    == with_extension(pages_under(item)[k].path->0@, PAGE_EXTENSION@) && pages_under(
                    item,
                )[k].path is Some
        }),
    decreases item, 0nat,
{
    match item {
        BookItem::Chapter(chapter) => {
            if chapter.path is Some {
                let page = page_written(context, assets, preprocessors, held, chapter);
                if page.failure is None {
                    lemma_items_written_are_pages(
                        context,
                        assets,
                        preprocessors,
                        held + page.entries,
                        chapter.sub_items@,
                    );
                }
            } else {
                lemma_items_written_are_pages(
                    context,
                    assets,
                    preprocessors,
                    held,
                    chapter.sub_items@,
                );
            }
        },
        _ => {},
    }
}

/// Every chapter of the book that has a source path has exactly one entry in
/// the archive at that path with the extension `html`: where the pages of the
/// book were written into an archive that held `held`, and `rest` was written
/// after them, and no two entries of the archive share a path, the page of the
/// `k`-th such chapter is the one entry at its path.
pub proof fn lemma_one_page_per_chapter<P: Preprocessor>(
    context: RenderContext,
    assets: Seq<AssetView>,
    preprocessors: Seq<P>,
    held: Seq<ArchiveEntry>,
    rest: Seq<ArchiveEntry>,
    k: int,
)
    requires
        items_written(context, assets, preprocessors, held, context.book.sections@).failure is None,
        distinct_paths(
            held + items_written(
                context,
                assets,
                preprocessors,
                held,
                context.book.sections@,
            ).entries + rest,
        ),
        0 <= k < context.book.pages().len(),
    ensures
        context.book.pages()[k].path is Some,
        ({
            let all = held + items_written(
                context,
                assets,
                preprocessors,
                held,
                context.book.sections@,
            ).entries + rest;
            forall|i: int|
                0 <= i < all.len() ==> ((#[trigger] all[i]).path == with_extension(
                    context.book.pages()[k].path->0@,
                    PAGE_EXTENSION@,
                ) <==> i == held.len() + k)
        }),
{
    let written = items_written(context, assets, preprocessors, held, context.book.sections@);
    let all = held + written.entries + rest;
    let at = held.len() + k;
    lemma_items_written_are_pages(context, assets, preprocessors, held, context.book.sections@);
    assert(all[at] == written.entries[k]);
    assert forall|i: int| 0 <= i < all.len() implies ((#[trigger] all[i]).path == with_extension(
        context.book.pages()[k].path->0@,
        PAGE_EXTENSION@,
    ) <==> i == at) by {
        if i < at {
            assert(all[i].path != all[at].path);
        } else if i > at {
            assert(all[at].path != all[i].path);
        }
    }
}

/// What a build will look for in the world outside.
#[derive(Debug, Clone)]
pub struct Requests {
    /// The paths at which files are looked for.
    pub files: Vec<String>,
    /// The URLs that are fetched.
    pub urls: Vec<String>,
}

/// The URLs among `references`, in order.
pub open spec fn required_urls(references: Seq<ReferenceView>) -> Seq<Seq<char>>
    decreases references.len(),
{
    if references.len() == 0 {
        Seq::empty()
    } else if is_remote(references.last().link) {
        required_urls(references.drop_last()).push(references.last().link)
    } else {
        required_urls(references.drop_last())
    }
}

/// The places where the files of the paths among `references` are looked for,
/// in the order of the references.
pub open spec fn required_asset_files(references: Seq<ReferenceView>, root: Seq<char>, src: Seq<char>) -> Seq<
    Seq<char>,
>
    decreases references.len(),
{
    if references.len() == 0 {
        Seq::empty()
    } else if is_remote(references.last().link) {
        required_asset_files(references.drop_last(), root, src)
    } else {
        required_asset_files(references.drop_last(), root, src) + asset_candidates(
            root,
            src,
            references.last().chapter,
            references.last().link,
        )
    }
}

/// The places where the stylesheets at `paths` are looked for, in order.
pub open spec fn required_stylesheets(root: Seq<char>, paths: Seq<Seq<char>>) -> Seq<Seq<char>>
    decreases paths.len(),
{
    if paths.len() == 0 {
        Seq::empty()
    } else {
        required_stylesheets(root, paths.drop_last()) + stylesheet_candidates(root, paths.last())
    }
}

/// The places where the files at `paths`, paths of the settings, are looked
/// for, in order.
pub open spec fn required_resources(root: Seq<char>, src: Seq<char>, paths: Seq<Seq<char>>) -> Seq<
    Seq<char>,
>
    decreases paths.len(),
{
    if paths.len() == 0 {
        Seq::empty()
    } else {
        required_resources(root, src, paths.drop_last()) + resource_candidates(
            root,
            src,
            paths.last(),
        )
    }
}

/// The places where the cover image is looked for.
pub open spec fn required_cover(context: RenderContext) -> Seq<Seq<char>> {
    match context.epub.cover_image {
        Some(path) => resource_candidates(context.root@, context.config.src@, path@),
        None => Seq::empty(),
    }
}

/// Every place at which a build of `context` looks for a file: for the paths
/// that the chapters refer to, the cover image, the stylesheets and the files
/// of the settings.
pub open spec fn required_files(context: RenderContext) -> Seq<Seq<char>> {
    required_asset_files(
        references_in(context.book.chapters()),
        context.root@,
        context.config.src@,
    ) + required_cover(context) + required_stylesheets(
        context.root@,
        views(context.epub.additional_css@),
    ) + required_resources(
        context.root@,
        context.config.src@,
        views(context.epub.additional_resources@),
    )
}

/// Whether two worlds hold the same at every path of `paths`.
pub open spec fn same_files(one: Seq<FileEntry>, other: Seq<FileEntry>, paths: Seq<Seq<char>>) -> bool {
    forall|i: int|
        0 <= i < paths.len() ==> file_state(one, #[trigger] paths[i]) == file_state(other, paths[i])
}

/// Whether two worlds gave the same for every URL of `urls`.
pub open spec fn same_fetches(one: Seq<RemoteEntry>, other: Seq<RemoteEntry>, urls: Seq<Seq<char>>) -> bool {
    forall|i: int|
        0 <= i < urls.len() ==> fetch_state(one, #[trigger] urls[i]) == fetch_state(other, urls[i])
}

/// Two worlds that hold the same at every candidate are searched alike.
pub proof fn lemma_same_files_found(
    one: Seq<FileEntry>,
    other: Seq<FileEntry>,
    candidates: Seq<Seq<char>>,
    start: int,
)
    requires
        same_files(one, other, candidates),
        0 <= start,
    ensures
        first_found_from(one, candidates, start) == first_found_from(other, candidates, start),
    decreases candidates.len() - start,
{
    if start < candidates.len() {
        assert(file_state(one, candidates[start]) == file_state(other, candidates[start]));
        lemma_same_files_found(one, other, candidates, start + 1);
    }
}

/// Two worlds that hold the same at the first paths and at the last hold the
/// same at all of them; and the other way round.
pub proof fn lemma_same_files_split(
    one: Seq<FileEntry>,
    other: Seq<FileEntry>,
    first: Seq<Seq<char>>,
    second: Seq<Seq<char>>,
)
    ensures
        same_files(one, other, first + second) <==> same_files(one, other, first) && same_files(
            one,
            other,
            second,
        ),
{
    let all = first + second;
    if same_files(one, other, all) {
        assert forall|i: int| 0 <= i < first.len() implies file_state(one, #[trigger] first[i])
            == file_state(other, first[i]) by {
            assert(all[i] == first[i]);
        }
        assert forall|i: int| 0 <= i < second.len() implies file_state(one, #[trigger] second[i])
            == file_state(other, second[i]) by {
            assert(all[first.len() + i] == second[i]);
        }
    }
    if same_files(one, other, first) && same_files(one, other, second) {
        assert forall|i: int| 0 <= i < all.len() implies file_state(one, #[trigger] all[i])
            == file_state(other, all[i]) by {
            if i < first.len() {
                assert(all[i] == first[i]);
            } else {
                assert(all[i] == second[i - first.len()]);
            }
        }
    }
}

/// The references resolve alike in two worlds that hold the same at every
/// place where their files are looked for and gave the same for their URLs.
pub proof fn lemma_same_world_same_assets(
    references: Seq<ReferenceView>,
    root: Seq<char>,
    src: Seq<char>,
    one: Resources,
    other: Resources,
)
    requires
        same_files(one.files@, other.files@, required_asset_files(references, root, src)),
        same_fetches(one.remote@, other.remote@, required_urls(references)),
    ensures
        resolved_assets(references, root, src, one) == resolved_assets(references, root, src, other),
    decreases references.len(),
{
    if references.len() > 0 {
        let head = references.drop_last();
        let last = references.last();
        let candidates = asset_candidates(root, src, last.chapter, last.link);
        if is_remote(last.link) {
            let urls = required_urls(references);
            assert(urls == required_urls(head).push(last.link));
            assert(urls[urls.len() - 1] == last.link);
            assert forall|i: int| 0 <= i < required_urls(head).len() implies fetch_state(
                one.remote@,
                #[trigger] required_urls(head)[i],
            ) == fetch_state(other.remote@, required_urls(head)[i]) by {
                assert(urls[i] == required_urls(head)[i]);
            }
        } else {
            lemma_same_files_split(
                one.files@,
                other.files@,
                required_asset_files(head, root, src),
                candidates,
            );
            lemma_same_files_found(one.files@, other.files@, candidates, 0);
            lemma_first_found_bounds(one.files@, candidates, 0);
        }
        lemma_same_world_same_assets(head, root, src, one, other);
    }
}

/// The stylesheet is composed alike in two worlds that hold the same at every
/// place where the stylesheets are looked for.
pub proof fn lemma_same_world_same_stylesheet(
    start: Seq<u8>,
    root: Seq<char>,
    paths: Seq<Seq<char>>,
    one: Seq<FileEntry>,
    other: Seq<FileEntry>,
)
    requires
        same_files(one, other, required_stylesheets(root, paths)),
    ensures
        composed(start, root, paths, one) == composed(start, root, paths, other),
    decreases paths.len(),
{
    if paths.len() > 0 {
        let candidates = stylesheet_candidates(root, paths.last());
        lemma_same_files_split(one, other, required_stylesheets(root, paths.drop_last()), candidates);
        lemma_same_files_found(one, other, candidates, 0);
        lemma_first_found_bounds(one, candidates, 0);
        lemma_same_world_same_stylesheet(start, root, paths.drop_last(), one, other);
    }
}

/// A path of the settings is written alike in two worlds that hold the same at
/// every place where its file is looked for.
pub proof fn lemma_same_world_same_file(
    context: RenderContext,
    path: Seq<char>,
    one: Seq<FileEntry>,
    other: Seq<FileEntry>,
)
    requires
        same_files(one, other, resource_candidates(context.root@, context.config.src@, path)),
    ensures
        located_file(context, path, one) == located_file(context, path, other),
{
    let candidates = resource_candidates(context.root@, context.config.src@, path);
    lemma_same_files_found(one, other, candidates, 0);
    lemma_first_found_bounds(one, candidates, 0);
}

/// The files of the settings are written alike in two worlds that hold the
/// same at every place where they are looked for.
pub proof fn lemma_same_world_same_resources(
    context: RenderContext,
    held: Seq<ArchiveEntry>,
    paths: Seq<Seq<char>>,
    one: Seq<FileEntry>,
    other: Seq<FileEntry>,
)
    requires
        same_files(one, other, required_resources(context.root@, context.config.src@, paths)),
    ensures
        resources_written(context, held, paths, one) == resources_written(context, held, paths, other),
    decreases paths.len(),
{
    if paths.len() > 0 {
        let candidates = resource_candidates(context.root@, context.config.src@, paths.last());
        lemma_same_files_split(
            one,
            other,
            required_resources(context.root@, context.config.src@, paths.drop_last()),
            candidates,
        );
        lemma_same_world_same_file(context, paths.last(), one, other);
        lemma_same_world_same_resources(context, held, paths.drop_last(), one, other);
    }
}

/// A build reads nothing of the world outside but what `requests` lists: in
/// two worlds that hold the same at every path of `required_files` and gave
/// the same for every URL among the references, a build does the same.
pub proof fn lemma_build_reads_its_requests_only<P: Preprocessor>(
    context: RenderContext,
    preprocessors: Seq<P>,
    held: Seq<ArchiveEntry>,
    one: Resources,
    other: Resources,
)
    requires
        same_files(one.files@, other.files@, required_files(context)),
        same_fetches(
            one.remote@,
            other.remote@,
            required_urls(references_in(context.book.chapters())),
        ),
    ensures
        built(context, preprocessors, held, one) == built(context, preprocessors, held, other),
{
    let root = context.root@;
    let src = context.config.src@;
    let references = references_in(context.book.chapters());
    let asset_files = required_asset_files(references, root, src);
    let cover = required_cover(context);
    let styles = required_stylesheets(root, views(context.epub.additional_css@));
    let extra = required_resources(root, src, views(context.epub.additional_resources@));
    lemma_same_files_split(one.files@, other.files@, asset_files + cover + styles, extra);
    lemma_same_files_split(one.files@, other.files@, asset_files + cover, styles);
    lemma_same_files_split(one.files@, other.files@, asset_files, cover);
    lemma_same_world_same_assets(references, root, src, one, other);
    match context.epub.cover_image {
        Some(path) => {
            lemma_same_world_same_file(context, path@, one.files@, other.files@);
        },
        None => {},
    }
    lemma_same_world_same_stylesheet(
        stylesheet_start(context.epub.use_default_css),
        root,
        views(context.epub.additional_css@),
        one.files@,
        other.files@,
    );
    match expected_assets(context, one) {
        Ok(assets) => {
            let pages = items_written(context, assets, preprocessors, held, context.book.sections@);
            let with_cover = followed(pages, cover_written(context, held + pages.entries, one.files@));
            let with_style = followed(
                with_cover,
                stylesheet_written(context, held + with_cover.entries, one.files@),
            );
            let with_assets = followed(
                with_style,
                entries_written(held + with_style.entries, asset_entries(assets)),
            );
            lemma_same_world_same_resources(
                context,
                held + with_assets.entries,
                views(context.epub.additional_resources@),
                one.files@,
                other.files@,
            );
        },
        Err(_) => {},
    }
}

/// Appends `more` to `all`.
fn push_strings(all: &mut Vec<String>, more: Vec<String>)
    ensures
        views(final(all)@) == views(old(all)@) + views(more@),
{
    let ghost start = views(all@);
    let mut i: usize = 0;
    assert(start + views(more@).take(0) == start);
    while i < more.len()
        invariant
            i <= more.len(),
            views(all@) == start + views(more@).take(i as int),
        decreases more.len() - i,
    {
        let ghost held = views(all@);
        all.push(more[i].clone());
        assert(views(all@) == held.push(more@[i as int]@));
        assert(views(more@).take(i + 1) == views(more@).take(i as int).push(more@[i as int]@));
        i = i + 1;
    }
    assert(views(more@).take(more.len() as int) == views(more@));
}

/// Lists what a build of `ctx` will look for in the world outside, so that
/// the caller can look and fetch before the build.
pub fn requests(ctx: &RenderContext) -> (wanted: Requests)
    ensures
        views(wanted.files@) == required_files(*ctx),
        views(wanted.urls@) == required_urls(references_in(ctx.book.chapters())),
{
    let root = ctx.root.as_str();
    let src = ctx.config.src.as_str();
    let references = find_references(&ctx.book);
    let ghost found = reference_views(references@);
    let mut files: Vec<String> = Vec::new();
    let mut urls: Vec<String> = Vec::new();
    let mut i: usize = 0;
    assert(found.take(0) == Seq::<ReferenceView>::empty());
    assert(views(files@) == Seq::<Seq<char>>::empty());
    assert(views(urls@) == Seq::<Seq<char>>::empty());
    while i < references.len()
        invariant
            i <= references.len(),
            found == reference_views(references@),
            root@ == ctx.root@,
            src@ == ctx.config.src@,
            views(files@) == required_asset_files(found.take(i as int), root@, src@),
            views(urls@) == required_urls(found.take(i as int)),
        decreases references.len() - i,
    {
        assert(found.take(i + 1).drop_last() == found.take(i as int));
        assert(found.take(i + 1).last() == references@[i as int]@);
        if reference_is_remote(references[i].link.as_str()) {
            let ghost held = views(urls@);
            urls.push(references[i].link.clone());
            assert(views(urls@) == held.push(references@[i as int].link@));
        } else {
            push_strings(
                &mut files,
                candidates_for_asset(
                    root,
                    src,
                    references[i].chapter.as_str(),
                    references[i].link.as_str(),
                ),
            );
        }
        i = i + 1;
    }
    assert(found.take(found.len() as int) == found);
    match &ctx.epub.cover_image {
        Some(path) => {
            push_strings(&mut files, candidates_for_resource(root, src, path.as_str()));
        },
        None => {
            assert(views(files@) + Seq::<Seq<char>>::empty() == views(files@));
        },
    }
    let ghost before = views(files@);
    let ghost styles = views(ctx.epub.additional_css@);
    let mut k: usize = 0;
    assert(styles.take(0) == Seq::<Seq<char>>::empty());
    assert(before + Seq::<Seq<char>>::empty() == before);
    while k < ctx.epub.additional_css.len()
        invariant
            k <= ctx.epub.additional_css.len(),
            styles == views(ctx.epub.additional_css@),
            root@ == ctx.root@,
            views(files@) == before + required_stylesheets(root@, styles.take(k as int)),
        decreases ctx.epub.additional_css.len() - k,
    {
        assert(styles.take(k + 1).drop_last() == styles.take(k as int));
        assert(styles.take(k + 1).last() == ctx.epub.additional_css@[k as int]@);
        let mut candidates: Vec<String> = Vec::new();
        candidates.push(path_join(root, ctx.epub.additional_css[k].as_str()));
        candidates.push(ctx.epub.additional_css[k].clone());
        assert(views(candidates@) =~= stylesheet_candidates(root@, ctx.epub.additional_css@[k as int]@));
        let ghost held = required_stylesheets(root@, styles.take(k as int));
        push_strings(&mut files, candidates);
        assert(before + held + views(candidates@) == before + (held + views(candidates@)));
        k = k + 1;
    }
    assert(styles.take(styles.len() as int) == styles);
    let ghost middle = views(files@);
    let ghost extras = views(ctx.epub.additional_resources@);
    let mut m: usize = 0;
    assert(extras.take(0) == Seq::<Seq<char>>::empty());
    assert(middle + Seq::<Seq<char>>::empty() == middle);
    while m < ctx.epub.additional_resources.len()
        invariant
            m <= ctx.epub.additional_resources.len(),
            extras == views(ctx.epub.additional_resources@),
            root@ == ctx.root@,
            src@ == ctx.config.src@,
            views(files@) == middle + required_resources(root@, src@, extras.take(m as int)),
        decreases ctx.epub.additional_resources.len() - m,
    {
        assert(extras.take(m + 1).drop_last() == extras.take(m as int));
        assert(extras.take(m + 1).last() == ctx.epub.additional_resources@[m as int]@);
        let candidates = candidates_for_resource(root, src, ctx.epub.additional_resources[m].as_str());
        let ghost held = required_resources(root@, src@, extras.take(m as int));
        push_strings(&mut files, candidates);
        assert(middle + held + views(candidates@) == middle + (held + views(candidates@)));
        m = m + 1;
    }
    assert(extras.take(extras.len() as int) == extras);
    Requests { files, urls }
}

} // verus!
