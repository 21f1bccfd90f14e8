//! The generator: it takes a book and what the world outside holds for it,
//! and fills an archive in a fixed order: metadata, the pages of the chapters,
//! the cover image, the stylesheet, the resources that the chapters refer to,
//! and the files that the settings of the book list.

use vstd::prelude::*;
use pulldown_cmark::Parser;
use crate::archive::{
    add_cover, add_page, add_resource, archive_entries, closing_refusal, archive_metadata, cover_entry,
    distinct_paths, finish, fresh_metadata, is_list_key, is_single_key, new_archive, new_zip,
    resource_entry, set_metadata, set_stylesheet, stylesheet_entry, Archive, ArchiveEntry,
};
use crate::book::{BookConfig, BookItem, Chapter, Config, RenderContext};
use crate::errors::{archive_result, preprocess_result, render_result, Error, ErrorView};
use crate::files::{views, FileState, Resources};
use crate::markdown::{markdown_html, render_markdown};
use crate::metadata::{
    known_keys, metadata_applied, metadata_entries, metadata_settings, setting_views,
    title_warnings, NO_TITLE_WARNING,
};
use crate::paths::{
    join, lemma_extensions, link_from, path_join, path_with_extension, relative_to_root,
    with_extension, ARCHIVE_EXTENSION, PAGE_EXTENSION,
};
use crate::plan::{
    asset_entries, built, chapter_entry, cover_written, entries_written, entry_written,
    expected_assets, file_written, filled, followed, item_written, items_written,
    lemma_entries_prefix_failure, lemma_items_prefix_failure, lemma_resources_prefix_failure,
    located_file, page_written, resources_written, stylesheet_written, Written,
};
use crate::resources::{
    asset_links, asset_views, candidates_for_resource, distinct_asset_links, distinct_filenames,
    find_references, guess_mime, lemma_resolved_assets, links_for, reference_views, resolve, Asset,
    AssetView,
};
use crate::stylesheet::generate_stylesheet;
use crate::template::{
    new_registry, page_data, page_fields, page_html, register_index, registered_index,
    render_index, renders_safely, template_compiles, template_renders_safely, Templates,
    DEFAULT_TEMPLATE, UNSAFE_TEMPLATE,
};
use crate::text::concat;

verus! {

/// What is said, before the reference, where a resource could not be fetched.
pub const UNREACHABLE_WARNING: &'static str = "Could not fetch the remote resource ";

/// True of every value. It says nothing; it gives the choice of an answer in
/// `Preprocessor::rewritten` a term to stand on.
pub open spec fn any_answer<T>(answer: T) -> bool {
    true
}

/// Something that rewrites the markdown of a chapter before it is rendered.
/// What it makes of a chapter depends on the name and the markdown of the
/// chapter alone.
pub trait Preprocessor {
    /// What the preprocessor makes of `content`, the markdown of the chapter
    /// `name`: the markdown it gives, or the message it fails with. A
    /// preprocessor that does not say what it makes is taken to make
    /// something that depends on itself, the name and the markdown alone.
    open spec fn rewritten(&self, name: Seq<char>, content: Seq<char>) -> Result<Seq<char>, Seq<char>> {
        (choose|answer: spec_fn(&Self, Seq<char>, Seq<char>) -> Result<Seq<char>, Seq<char>>|
            #[trigger] any_answer(answer))(self, name, content)
    }

    /// Rewrites `content`, the markdown of the chapter `name`, or says why it
    /// cannot.
    fn preprocess_chapter(&self, name: &str, content: String) -> (result: Result<String, String>)
        ensures
            match result {
                Ok(text) => self.rewritten(name@, content@) == Ok::<Seq<char>, Seq<char>>(text@),
                Err(reason) => self.rewritten(name@, content@) == Err::<Seq<char>, Seq<char>>(
                    reason@,
                ),
            },
    ;
}

/// The preprocessor that leaves every chapter as it is.
pub struct NoPreprocessor;

impl Preprocessor for NoPreprocessor {
    open spec fn rewritten(&self, name: Seq<char>, content: Seq<char>) -> Result<Seq<char>, Seq<char>> {
        Ok(content)
    }

    fn preprocess_chapter(&self, _name: &str, content: String) -> (result: Result<String, String>) {
        Ok(content)
    }
}

/// What the preprocessors `preprocessors` make of `content`, the markdown of
/// the chapter `name`, one after the other in their order, each taking what
/// the one before it gave. The first that fails ends it with its message.
pub open spec fn processed<P: Preprocessor>(
    preprocessors: Seq<P>,
    name: Seq<char>,
    content: Seq<char>,
) -> Result<Seq<char>, Seq<char>>
    decreases preprocessors.len(),
{
    if preprocessors.len() == 0 {
        Ok(content)
    } else {
        match processed(preprocessors.drop_last(), name, content) {
            Err(reason) => Err(reason),
            Ok(text) => preprocessors.last().rewritten(name, text),
        }
    }
}

/// What is said of the resources that could not be fetched: one sentence for
/// each asset without bytes, in the order of the assets.
pub open spec fn asset_warnings(assets: Seq<AssetView>) -> Seq<Seq<char>>
    decreases assets.len(),
{
    if assets.len() == 0 {
        Seq::empty()
    } else if assets.last().found {
        asset_warnings(assets.drop_last())
    } else {
        asset_warnings(assets.drop_last()).push(UNREACHABLE_WARNING@ + assets.last().original_link)
    }
}

/// The text of the page template of a book.
pub open spec fn template_of(config: Config) -> Seq<char> {
    match config.template {
        Some(template) => template@,
        None => DEFAULT_TEMPLATE@,
    }
}

/// The page of `chapter` when its markdown is `content`: the markdown as HTML,
/// with the images led to `assets`, inside the page template; or the message
/// that the template fails with. A template in which a partial could include
/// itself is not rendered and fails outright.
pub open spec fn chapter_page(
    context: RenderContext,
    assets: Seq<AssetView>,
    chapter: Chapter,
    content: Seq<char>,
) -> Result<Seq<char>, Seq<char>>
    recommends
        chapter.path is Some,
{
    let path = chapter.path->0@;
    if renders_safely(template_of(context.epub)) {
        page_html(
            template_of(context.epub),
            page_fields(
                chapter.name@,
                markdown_html(content, context.epub.curly_quotes, asset_links(assets, path)),
                relative_to_root(path, "stylesheet.css"@),
            ),
        )
    } else {
        Err(UNSAFE_TEMPLATE@)
    }
}

/// Whether `done` is how a step ends that fails with `failure`, or succeeds
/// where there is none.
pub open spec fn ends_with(done: Result<(), Error>, failure: Option<ErrorView>) -> bool {
    match failure {
        None => done is Ok,
        Some(expected) => done matches Err(error) && error@ == expected,
    }
}

/// An entry whose path is new keeps the paths distinct.
pub proof fn lemma_push_keeps_paths_distinct(entries: Seq<ArchiveEntry>, entry: ArchiveEntry)
    requires
        distinct_paths(entries),
        !crate::archive::has_path(entries, entry.path),
    ensures
        distinct_paths(entries.push(entry)),
{
    let after = entries.push(entry);
    assert forall|i: int, j: int| 0 <= i < j < after.len() implies (#[trigger] after[i]).path != (
    #[trigger] after[j]).path by {
        if j == entries.len() {
            assert(entries[i].path != entry.path);
        } else {
            assert(entries[i].path != entries[j].path);
        }
    }
}

/// Once the first preprocessors have failed, all of them fail alike.
pub proof fn lemma_processed_prefix_failure<P: Preprocessor>(
    preprocessors: Seq<P>,
    name: Seq<char>,
    content: Seq<char>,
    count: int,
)
    requires
        0 <= count <= preprocessors.len(),
    ensures
        processed(preprocessors.take(count), name, content) is Err ==> processed(
            preprocessors,
            name,
            content,
        ) == processed(preprocessors.take(count), name, content),
    decreases preprocessors.len() - count,
{
    if count < preprocessors.len() {
        assert(preprocessors.take(count + 1).drop_last() == preprocessors.take(count));
        lemma_processed_prefix_failure(preprocessors, name, content, count + 1);
    } else {
        assert(preprocessors.take(count) == preprocessors);
    }
}

/// The EPUB renderer: a book, the archive that is made of it, and what was
/// found out on the way.
pub struct Generator<'a, P: Preprocessor> {
    ctx: &'a RenderContext,
    archive: Archive,
    hbs: Templates,
    safe: bool,
    assets: Vec<Asset>,
    preprocessors: Vec<P>,
    warnings: Vec<String>,
}

/// What a build gives: the bytes of the archive, and what there was to warn
/// of.
#[derive(Debug, Clone)]
pub struct Epub {
    pub bytes: Vec<u8>,
    pub warnings: Vec<String>,
}

impl<'a, P: Preprocessor> Generator<'a, P> {
    /// The book and its settings.
    pub closed spec fn context(&self) -> RenderContext {
        *self.ctx
    }

    /// The entries written into the archive so far.
    pub closed spec fn entries(&self) -> Seq<ArchiveEntry> {
        archive_entries(self.archive)
    }

    /// The metadata of the archive.
    pub closed spec fn metadata(&self) -> Map<Seq<char>, Seq<Seq<char>>> {
        archive_metadata(self.archive)
    }

    /// The assets found so far.
    pub closed spec fn assets(&self) -> Seq<AssetView> {
        asset_views(self.assets@)
    }

    /// The preprocessors, in the order in which they run.
    pub closed spec fn preprocessors(&self) -> Seq<P> {
        self.preprocessors@
    }

    /// What there was to warn of so far.
    pub closed spec fn warnings(&self) -> Seq<Seq<char>> {
        views(self.warnings@)
    }

    /// Whether the generator is in order: it holds the page template of the
    /// book and knows whether rendering it is sure to end, no two entries of
    /// its archive share a path, and no two of its assets share a reference
    /// or a name.
    pub closed spec fn wf(&self) -> bool {
        &&& registered_index(self.hbs) == Some(template_of(self.ctx.epub))
        &&& self.safe == renders_safely(template_of(self.ctx.epub))
        &&& distinct_paths(archive_entries(self.archive))
        &&& distinct_filenames(asset_views(self.assets@))
        &&& distinct_asset_links(asset_views(self.assets@))
    }

    /// Whether `self` and `other` hold the same book and page template.
    pub closed spec fn same_setup(&self, other: &Self) -> bool {
        &&& self.ctx == other.ctx
        &&& self.hbs == other.hbs
        &&& self.safe == other.safe
    }

    /// Whether `self` differs from `other` in the entries of its archive at
    /// most.
    pub open spec fn same_but_entries(&self, other: &Self) -> bool {
        &&& self.same_setup(other)
        &&& self.context() == other.context()
        &&& self.preprocessors() == other.preprocessors()
        &&& self.assets() == other.assets()
        &&& self.warnings() == other.warnings()
        &&& self.metadata() == other.metadata()
    }

    /// Whether `self` is what the step `written` makes of `other`: the archive
    /// has the entries of the step after those it had, and nothing else has
    /// changed.
    pub open spec fn after_step(&self, other: &Self, written: Written) -> bool {
        &&& self.same_but_entries(other)
        &&& self.entries() == other.entries() + written.entries
    }

    /// The error that a build with this generator ends with, given what the
    /// world outside holds; `None` for a build that gives an archive. The
    /// error is that of the first step that fails while the archive is
    /// filled, or else that of closing the archive.
    pub open spec fn outcome(&self, resources: Resources) -> Option<ErrorView> {
        let written = built(self.context(), self.preprocessors(), self.entries(), resources);
        match written.failure {
            Some(error) => Some(error),
            None => match closing_refusal(
                self.entries() + written.entries,
                metadata_applied(self.metadata(), metadata_settings(self.context().config)),
            ) {
                Some(reason) => Some(ErrorView::EpubBuilder(reason)),
                None => None,
            },
        }
    }

    /// No two entries of the archive of a generator in order share a path,
    /// and no two of its assets share a reference or a name.
    pub proof fn lemma_paths_are_distinct(&self)
        requires
            self.wf(),
        ensures
            distinct_paths(self.entries()),
            distinct_filenames(self.assets()),
            distinct_asset_links(self.assets()),
    {
    }

    /// Starts a generator for the book of `ctx`: an archive without entries,
    /// the page template compiled, and the preprocessors kept in their order.
    /// Fails with `TemplateParse` on a template that does not compile, and on
    /// no other.
    pub fn new(ctx: &'a RenderContext, preprocessors: Vec<P>) -> (generator: Result<Self, Error>)
        ensures
            generator is Ok <==> template_compiles(template_of(ctx.epub)),
            match generator {
                Ok(made) => {
                    &&& made.wf()
                    &&& made.context() == *ctx
                    &&& made.preprocessors() == preprocessors@
                    &&& made.entries().len() == 0
                    &&& made.metadata() == fresh_metadata()
                    &&& made.assets().len() == 0
                    &&& made.warnings().len() == 0
                },
                Err(error) => error@ == ErrorView::TemplateParse,
            },
    {
        let template = match &ctx.epub.template {
            Some(template) => template.as_str(),
            None => DEFAULT_TEMPLATE,
        };
        let mut hbs = new_registry();
        match register_index(&mut hbs, template) {
            Ok(()) => {},
            Err(_) => {
                return Err(Error::TemplateParse);
            },
        }
        let zip = match new_zip() {
            Ok(zip) => zip,
            Err(reason) => {
                return Err(Error::EpubBuilder(reason));
            },
        };
        let archive = match new_archive(zip) {
            Ok(archive) => archive,
            Err(reason) => {
                return Err(Error::EpubBuilder(reason));
            },
        };
        let made = Generator {
            ctx,
            archive,
            hbs,
            safe: template_renders_safely(template),
            assets: Vec::new(),
            preprocessors,
            warnings: Vec::new(),
        };
        assert(made.assets() =~= Seq::<AssetView>::empty());
        assert(made.warnings() =~= Seq::<Seq<char>>::empty());
        Ok(made)
    }

    /// Sets the metadata of the book: the generator, the title, the
    /// description, the authors and the language. A book without a title is
    /// warned of. Setting them cannot fail.
    pub fn populate_metadata(&mut self) -> (done: Result<(), Error>)
        requires
            old(self).wf(),
        ensures
            done is Ok,
            final(self).wf(),
            final(self).same_setup(old(self)),
            final(self).context() == old(self).context(),
            final(self).preprocessors() == old(self).preprocessors(),
            final(self).assets() == old(self).assets(),
            final(self).entries() == old(self).entries(),
            final(self).metadata() == metadata_applied(
                old(self).metadata(),
                metadata_settings(old(self).context().config),
            ),
            final(self).warnings() == old(self).warnings() + title_warnings(
                old(self).context().config,
            ),
    {
        let settings = metadata_entries(&self.ctx.config);
        let ghost all = setting_views(settings@);
        let mut i: usize = 0;
        assert(all.take(0) == Seq::<(Seq<char>, Seq<char>)>::empty());
        while i < settings.len()
            invariant
                i <= settings.len(),
                all == setting_views(settings@),
                known_keys(all),
                self.ctx == old(self).ctx,
                self.hbs == old(self).hbs,
                self.safe == old(self).safe,
                self.preprocessors == old(self).preprocessors,
                self.assets == old(self).assets,
                self.warnings == old(self).warnings,
                archive_entries(self.archive) == archive_entries(old(self).archive),
                archive_metadata(self.archive) == metadata_applied(
                    archive_metadata(old(self).archive),
                    all.take(i as int),
                ),
            decreases settings.len() - i,
        {
            assert(all.take(i + 1).drop_last() == all.take(i as int));
            assert(all.take(i + 1).last() == (settings@[i as int].key@, settings@[i as int].value@));
            assert(is_single_key(all[i as int].0) || is_list_key(all[i as int].0));
            match archive_result(
                set_metadata(&mut self.archive, settings[i].key.as_str(), settings[i].value.as_str()),
            ) {
                Ok(()) => {},
                Err(error) => {
                    return Err(error);
                },
            }
            i = i + 1;
        }
        assert(all.take(all.len() as int) == all);
        if self.ctx.config.title.is_none() {
            let ghost before = views(self.warnings@);
            self.warnings.push(concat(NO_TITLE_WARNING, ""));
            proof {
                reveal_strlit("");
                assert(NO_TITLE_WARNING@ + ""@ =~= NO_TITLE_WARNING@);
                assert(views(self.warnings@) =~= before.push(NO_TITLE_WARNING@));
            }
        } else {
            assert(views(self.warnings@) + Seq::<Seq<char>>::empty() =~= views(self.warnings@));
        }
        Ok(())
    }

    /// Finds the resources that the chapters refer to and resolves them. A
    /// resource that could not be fetched is warned of and stood in for by an
    /// empty asset; a path for which no file is found ends the build.
    pub fn find_assets(&mut self, resources: &Resources) -> (done: Result<(), Error>)
        requires
            old(self).wf(),
        ensures
            final(self).wf(),
            final(self).same_setup(old(self)),
            final(self).context() == old(self).context(),
            final(self).preprocessors() == old(self).preprocessors(),
            final(self).entries() == old(self).entries(),
            final(self).metadata() == old(self).metadata(),
            match done {
                Ok(()) => {
                    &&& expected_assets(old(self).context(), *resources) == Ok::<
                        Seq<AssetView>,
                        ErrorView,
                    >(final(self).assets())
                    &&& distinct_filenames(final(self).assets())
                    &&& final(self).warnings() == old(self).warnings() + asset_warnings(
                        final(self).assets(),
                    )
                },
                Err(error) => {
                    &&& expected_assets(old(self).context(), *resources) == Err::<
                        Seq<AssetView>,
                        ErrorView,
                    >(error@)
                    &&& final(self).assets() == old(self).assets()
                    &&& final(self).warnings() == old(self).warnings()
                },
            },
    {
        let references = find_references(&self.ctx.book);
        let assets = match resolve(
            &references,
            self.ctx.root.as_str(),
            self.ctx.config.src.as_str(),
            resources,
        ) {
            Ok(assets) => assets,
            Err(error) => {
                return Err(error);
            },
        };
        let ghost found = asset_views(assets@);
        let ghost before = views(self.warnings@);
        proof {
            let wanted = reference_views(references@);
            lemma_resolved_assets(
                wanted,
                self.ctx.root@,
                self.ctx.config.src@,
                *resources,
            );
            assert forall|i: int, j: int| 0 <= i < j < found.len() implies (
            #[trigger] found[i]).original_link != (#[trigger] found[j]).original_link by {
                assert(wanted[i].link != wanted[j].link);
            }
        }
        let mut i: usize = 0;
        assert(found.take(0) == Seq::<AssetView>::empty());
        assert(before + Seq::<Seq<char>>::empty() =~= before);
        while i < assets.len()
            invariant
                i <= assets.len(),
                found == asset_views(assets@),
                self.ctx == old(self).ctx,
                self.hbs == old(self).hbs,
                self.safe == old(self).safe,
                self.preprocessors == old(self).preprocessors,
                self.archive == old(self).archive,
                distinct_filenames(found),
                distinct_asset_links(found),
                views(self.warnings@) == before + asset_warnings(found.take(i as int)),
            decreases assets.len() - i,
        {
            assert(found.take(i + 1).drop_last() == found.take(i as int));
            assert(found.take(i + 1).last() == assets@[i as int]@);
            if !assets[i].found {
                let ghost held = views(self.warnings@);
                let warning = concat(UNREACHABLE_WARNING, assets[i].original_link.as_str());
                self.warnings.push(warning);
                assert(views(self.warnings@) =~= held.push(warning@));
                assert(before + asset_warnings(found.take(i as int)).push(warning@) =~= (before
                    + asset_warnings(found.take(i as int))).push(warning@));
            }
            i = i + 1;
        }
        assert(found.take(found.len() as int) == found);
        self.assets = assets;
        Ok(())
    }

    /// Hands the markdown of `chapter` to the preprocessors, one after the
    /// other in their order, each taking what the one before it gave. The
    /// first that fails ends it with `Preprocess` and its message.
    pub fn run_preprocessors(&self, chapter: &Chapter) -> (content: Result<String, Error>)
        ensures
            match content {
                Ok(text) => processed(self.preprocessors(), chapter.name@, chapter.content@) == Ok::<
                    Seq<char>,
                    Seq<char>,
                >(text@),
                Err(error) => error@ matches ErrorView::Preprocess(reason) && processed(
                    self.preprocessors(),
                    chapter.name@,
                    chapter.content@,
                ) == Err::<Seq<char>, Seq<char>>(reason),
            },
    {
        let ghost all = self.preprocessors@;
        let mut content = chapter.content.clone();
        let mut i: usize = 0;
        assert(all.take(0) == Seq::<P>::empty());
        while i < self.preprocessors.len()
            invariant
                i <= self.preprocessors.len(),
                all == self.preprocessors@,
                processed(all.take(i as int), chapter.name@, chapter.content@) == Ok::<
                    Seq<char>,
                    Seq<char>,
                >(content@),
            decreases self.preprocessors.len() - i,
        {
            assert(all.take(i + 1).drop_last() == all.take(i as int));
            assert(all.take(i + 1).last() == self.preprocessors@[i as int]);
            proof {
                lemma_processed_prefix_failure(all, chapter.name@, chapter.content@, i + 1);
            }
            match preprocess_result(
                self.preprocessors[i].preprocess_chapter(chapter.name.as_str(), content),
            ) {
                Ok(rewritten) => {
                    content = rewritten;
                },
                Err(error) => {
                    return Err(error);
                },
            }
            i = i + 1;
        }
        assert(all.take(all.len() as int) == all);
        Ok(content)
    }

    /// Renders the page of `chapter` from the markdown `content`: the markdown
    /// as HTML inside the page template, with the way from the page to the
    /// stylesheet. Fails with `Render` for a chapter without a source path,
    /// and where the template fails, then with the message of the template.
    pub fn render_page(&self, chapter: &Chapter, content: &str) -> (page: Result<String, Error>)
        requires
            self.wf(),
        ensures
            chapter.path is None ==> (page matches Err(error) && error is Render),
            chapter.path is Some ==> match page {
                Ok(html) => chapter_page(self.context(), self.assets(), *chapter, content@) == Ok::<
                    Seq<char>,
                    Seq<char>,
                >(html@),
                Err(error) => error@ matches ErrorView::Render(reason) && chapter_page(
                    self.context(),
                    self.assets(),
                    *chapter,
                    content@,
                ) == Err::<Seq<char>, Seq<char>>(reason),
            },
    {
        let path = match &chapter.path {
            Some(path) => path,
            None => {
                return Err(
                    Error::Render(concat("No source path for the chapter ", chapter.name.as_str())),
                );
            },
        };
        if !self.safe {
            proof {
                reveal_strlit("");
                assert(UNSAFE_TEMPLATE@ + ""@ =~= UNSAFE_TEMPLATE@);
            }
            return Err(Error::Render(concat(UNSAFE_TEMPLATE, "")));
        }
        let links = links_for(&self.assets, path.as_str());
        let body = render_markdown(content, self.ctx.epub.curly_quotes, &links);
        let stylesheet_path = link_from(path.as_str(), "stylesheet.css");
        let data = page_data(chapter.name.as_str(), body.as_str(), stylesheet_path.as_str());
        render_result(render_index(&self.hbs, &data))
    }

    /// Renders the page of `chapter` from its own markdown.
    pub fn render_chapter(&self, chapter: &Chapter) -> (page: Result<String, Error>)
        requires
            self.wf(),
        ensures
            chapter.path is None ==> (page matches Err(error) && error is Render),
            chapter.path is Some ==> match page {
                Ok(html) => chapter_page(self.context(), self.assets(), *chapter, chapter.content@)
                    == Ok::<Seq<char>, Seq<char>>(html@),
                Err(error) => error@ matches ErrorView::Render(reason) && chapter_page(
                    self.context(),
                    self.assets(),
                    *chapter,
                    chapter.content@,
                ) == Err::<Seq<char>, Seq<char>>(reason),
            },
    {
        self.render_page(chapter, chapter.content.as_str())
    }

    /// Writes the pages of the chapters in and below `items`, in the order of
    /// the document, up to the first that fails. A chapter without a source
    /// path gets no page; the chapters below it get theirs.
    pub fn add_items(&mut self, items: &Vec<BookItem>) -> (done: Result<(), Error>)
        requires
            old(self).wf(),
        ensures
            final(self).wf(),
            final(self).after_step(
                old(self),
                items_written(
                    old(self).context(),
                    old(self).assets(),
                    old(self).preprocessors(),
                    old(self).entries(),
                    items@,
                ),
            ),
            ends_with(
                done,
                items_written(
                    old(self).context(),
                    old(self).assets(),
                    old(self).preprocessors(),
                    old(self).entries(),
                    items@,
                ).failure,
            ),
        decreases items, 1nat,
    {
        let ghost context = self.context();
        let ghost assets = self.assets();
        let ghost preprocessors = self.preprocessors();
        let ghost start = self.entries();
        let ghost mut added: Seq<ArchiveEntry> = Seq::empty();
        let mut i: usize = 0;
        assert(items@.take(0) == Seq::<BookItem>::empty());
        assert(start + added == start);
        while i < items.len()
            invariant
                i <= items.len(),
                self.wf(),
                self.same_but_entries(old(self)),
                context == old(self).context(),
                assets == old(self).assets(),
                preprocessors == old(self).preprocessors(),
                start == old(self).entries(),
                self.entries() == start + added,
                items_written(context, assets, preprocessors, start, items@.take(i as int)) == (Written {
                    entries: added,
                    failure: None,
                }),
            decreases items.len() - i,
        {
            assert(items@.take(i + 1).drop_last() == items@.take(i as int));
            assert(items@.take(i + 1).last() == items@[i as int]);
            let ghost step = item_written(context, assets, preprocessors, start + added, items@[i as int]);
            proof {
                lemma_items_prefix_failure(context, assets, preprocessors, start, items@, i + 1);
                assert(start + added + step.entries == start + (added + step.entries));
            }
            match &items[i] {
                BookItem::Chapter(chapter) => {
                    let done = if chapter.path.is_some() {
                        self.add_chapter(chapter)
                    } else {
                        self.add_items(&chapter.sub_items)
                    };
                    match done {
                        Ok(()) => {},
                        Err(error) => {
                            return Err(error);
                        },
                    }
                },
                _ => {
                    assert(added + step.entries == added);
                },
            }
            proof {
                added = added + step.entries;
            }
            i = i + 1;
        }
        assert(items@.take(items.len() as int) == items@);
        Ok(())
    }

    /// Writes the page of `chapter`, then the pages of the chapters below it.
    /// The markdown of the chapter goes through the preprocessors first. A
    /// chapter without a source path fails with `ContentFileNotFound`, and
    /// nothing is written.
    pub fn add_chapter(&mut self, chapter: &Chapter) -> (done: Result<(), Error>)
        requires
            old(self).wf(),
        ensures
            final(self).wf(),
            chapter.path is None ==> final(self).after_step(old(self), crate::plan::nothing())
                && ends_with(done, Some(ErrorView::ContentFileNotFound(chapter.name@))),
            chapter.path is Some ==> final(self).after_step(
                old(self),
                item_written(
                    old(self).context(),
                    old(self).assets(),
                    old(self).preprocessors(),
                    old(self).entries(),
                    BookItem::Chapter(*chapter),
                ),
            ) && ends_with(
                done,
                item_written(
                    old(self).context(),
                    old(self).assets(),
                    old(self).preprocessors(),
                    old(self).entries(),
                    BookItem::Chapter(*chapter),
                ).failure,
            ),
        decreases chapter, 0nat,
    {
        let ghost start = self.entries();
        assert(start + Seq::<ArchiveEntry>::empty() == start);
        let content_path = match &chapter.path {
            Some(path) => path,
            None => {
                return Err(Error::ContentFileNotFound(chapter.name.clone()));
            },
        };
        let content = match self.run_preprocessors(chapter) {
            Ok(content) => content,
            Err(error) => {
                return Err(error);
            },
        };
        let rendered = match self.render_page(chapter, content.as_str()) {
            Ok(rendered) => rendered,
            Err(error) => {
                return Err(error);
            },
        };
        proof {
            lemma_extensions();
        }
        let path = path_with_extension(content_path.as_str(), PAGE_EXTENSION);
        let title = chapter.display();
        let level = chapter.depth();
        let ghost entry = chapter_entry(*chapter, rendered@);
        let ghost page = page_written(
            old(self).context(),
            old(self).assets(),
            old(self).preprocessors(),
            start,
            *chapter,
        );
        assert(page == entry_written(start, entry));
        match archive_result(
            add_page(
                &mut self.archive,
                path.as_str(),
                title.as_str(),
                level,
                rendered.as_str().as_bytes(),
            ),
        ) {
            Ok(()) => {},
            Err(error) => {
                return Err(error);
            },
        }
        proof {
            lemma_push_keeps_paths_distinct(start, entry);
            assert(start.push(entry) == start + seq![entry]);
        }
        let done = self.add_items(&chapter.sub_items);
        proof {
            let below = items_written(
                old(self).context(),
                old(self).assets(),
                old(self).preprocessors(),
                start + page.entries,
                chapter.sub_items@,
            );
            assert(start + page.entries + below.entries == start + (page.entries + below.entries));
        }
        done
    }

    /// Writes the pages of all chapters of the book that have a source path,
    /// in the order of the document, up to the first that fails.
    pub fn generate_chapters(&mut self) -> (done: Result<(), Error>)
        requires
            old(self).wf(),
        ensures
            final(self).wf(),
            final(self).after_step(
                old(self),
                items_written(
                    old(self).context(),
                    old(self).assets(),
                    old(self).preprocessors(),
                    old(self).entries(),
                    old(self).context().book.sections@,
                ),
            ),
            ends_with(
                done,
                items_written(
                    old(self).context(),
                    old(self).assets(),
                    old(self).preprocessors(),
                    old(self).entries(),
                    old(self).context().book.sections@,
                ).failure,
            ),
    {
        let ctx = self.ctx;
        self.add_items(&ctx.book.sections)
    }

    /// Finds the file that `path`, a path of the settings, leads to. A file
    /// that is found nowhere gives `AssetOpen` with the path, one that cannot
    /// be read gives `AssetOpen` with the place where it was found.
    pub fn load_file<'r>(&self, path: &String, resources: &'r Resources) -> (found: Result<
        (String, &'r Vec<u8>),
        Error,
    >)
        ensures
            match found {
                Ok(file) => located_file(self.context(), path@, resources.files@) == Ok::<
                    (Seq<char>, Seq<u8>),
                    ErrorView,
                >((file.0@, file.1@)),
                Err(error) => located_file(self.context(), path@, resources.files@) == Err::<
                    (Seq<char>, Seq<u8>),
                    ErrorView,
                >(error@),
            },
    {
        let candidates = candidates_for_resource(
            self.ctx.root.as_str(),
            self.ctx.config.src.as_str(),
            path.as_str(),
        );
        match resources.locate(&candidates) {
            None => Err(Error::AssetOpen(path.clone())),
            Some(index) => {
                assert(views(candidates@)[index as int] == candidates@[index as int]@);
                match resources.file(&candidates[index]) {
                    FileState::Present(content) => Ok((candidates[index].clone(), content)),
                    _ => Err(Error::AssetOpen(candidates[index].clone())),
                }
            },
        }
    }

    /// Writes the file that `path`, a path of the settings, leads to, under
    /// that path: as the cover image where `cover` is set, else as a file
    /// that pages refer to.
    pub fn add_file(&mut self, path: &String, cover: bool, resources: &Resources) -> (done: Result<
        (),
        Error,
    >)
        requires
            old(self).wf(),
        ensures
            final(self).wf(),
            final(self).after_step(
                old(self),
                file_written(old(self).context(), old(self).entries(), path@, cover, resources.files@),
            ),
            ends_with(
                done,
                file_written(
                    old(self).context(),
                    old(self).entries(),
                    path@,
                    cover,
                    resources.files@,
                ).failure,
            ),
    {
        let ghost start = self.entries();
        assert(start + Seq::<ArchiveEntry>::empty() == start);
        let file = match self.load_file(path, resources) {
            Ok(file) => file,
            Err(error) => {
                return Err(error);
            },
        };
        let mime = guess_mime(file.0.as_str());
        let done = if cover {
            add_cover(&mut self.archive, path.as_str(), file.1.as_slice(), mime.as_str())
        } else {
            add_resource(&mut self.archive, path.as_str(), file.1.as_slice(), mime.as_str())
        };
        proof {
            let entry = if cover {
                cover_entry(path@, mime@, file.1@)
            } else {
                resource_entry(path@, mime@, file.1@)
            };
            if done is Ok {
                lemma_push_keeps_paths_distinct(start, entry);
                assert(start.push(entry) == start + seq![entry]);
            }
        }
        archive_result(done)
    }

    /// Writes the cover image, where the book has one, under the path that
    /// the settings give.
    pub fn add_cover_image(&mut self, resources: &Resources) -> (done: Result<(), Error>)
        requires
            old(self).wf(),
        ensures
            final(self).wf(),
            final(self).after_step(
                old(self),
                cover_written(old(self).context(), old(self).entries(), resources.files@),
            ),
            ends_with(
                done,
                cover_written(old(self).context(), old(self).entries(), resources.files@).failure,
            ),
    {
        let ctx = self.ctx;
        match &ctx.epub.cover_image {
            None => {
                assert(self.entries() + Seq::<ArchiveEntry>::empty() == self.entries());
                Ok(())
            },
            Some(path) => self.add_file(path, true, resources),
        }
    }

    /// Composes the stylesheet and writes it as `stylesheet.css`.
    pub fn embed_stylesheets(&mut self, resources: &Resources) -> (done: Result<(), Error>)
        requires
            old(self).wf(),
        ensures
            final(self).wf(),
            final(self).after_step(
                old(self),
                stylesheet_written(old(self).context(), old(self).entries(), resources.files@),
            ),
            ends_with(
                done,
                stylesheet_written(
                    old(self).context(),
                    old(self).entries(),
                    resources.files@,
                ).failure,
            ),
    {
        let ghost start = self.entries();
        assert(start + Seq::<ArchiveEntry>::empty() == start);
        let stylesheet = match generate_stylesheet(
            &self.ctx.epub,
            self.ctx.root.as_str(),
            resources,
        ) {
            Ok(stylesheet) => stylesheet,
            Err(error) => {
                return Err(error);
            },
        };
        let done = set_stylesheet(&mut self.archive, stylesheet.as_slice());
        proof {
            let entry = stylesheet_entry(stylesheet@);
            if done is Ok {
                lemma_push_keeps_paths_distinct(start, entry);
                assert(start.push(entry) == start + seq![entry]);
            }
        }
        archive_result(done)
    }

    /// Writes every asset under its name, in the order in which the assets
    /// were found, up to the first that the archive refuses.
    pub fn additional_assets(&mut self) -> (done: Result<(), Error>)
        requires
            old(self).wf(),
        ensures
            final(self).wf(),
            final(self).after_step(
                old(self),
                entries_written(old(self).entries(), asset_entries(old(self).assets())),
            ),
            ends_with(
                done,
                entries_written(old(self).entries(), asset_entries(old(self).assets())).failure,
            ),
    {
        let ghost start = self.entries();
        let ghost all = asset_entries(self.assets());
        let mut i: usize = 0;
        assert(all.take(0) == Seq::<ArchiveEntry>::empty());
        assert(start + all.take(0) == start);
        while i < self.assets.len()
            invariant
                i <= self.assets.len(),
                self.wf(),
                self.same_but_entries(old(self)),
                self.assets == old(self).assets,
                start == old(self).entries(),
                all == asset_entries(old(self).assets()),
                self.entries() == start + all.take(i as int),
                entries_written(start, all.take(i as int)) == (Written {
                    entries: all.take(i as int),
                    failure: None,
                }),
            decreases self.assets.len() - i,
        {
            let ghost held = self.entries();
            let ghost entry = all[i as int];
            assert(entry == resource_entry(
                self.assets@[i as int].filename@,
                self.assets@[i as int].mimetype@,
                self.assets@[i as int].content@,
            ));
            assert(all.take(i + 1).drop_last() == all.take(i as int));
            assert(all.take(i + 1).last() == entry);
            proof {
                lemma_entries_prefix_failure(start, all, i + 1);
            }
            let done = add_resource(
                &mut self.archive,
                self.assets[i].filename.as_str(),
                self.assets[i].content.as_slice(),
                self.assets[i].mimetype.as_str(),
            );
            proof {
                assert(start + all.take(i as int) + Seq::<ArchiveEntry>::empty() == start + all.take(
                    i as int,
                ));
                assert(all.take(i as int) + Seq::<ArchiveEntry>::empty() == all.take(i as int));
                if done is Ok {
                    lemma_push_keeps_paths_distinct(held, entry);
                    assert(all.take(i + 1) == all.take(i as int) + seq![entry]);
                    assert(start + all.take(i as int) + seq![entry] == (start + all.take(
                        i as int,
                    )).push(entry));
                    assert(start + (all.take(i as int) + seq![entry]) == start + all.take(i as int)
                        + seq![entry]);
                }
            }
            match archive_result(done) {
                Ok(()) => {},
                Err(error) => {
                    return Err(error);
                },
            }
            i = i + 1;
        }
        assert(all.take(all.len() as int) == all);
        Ok(())
    }

    /// Writes the files that the settings list, each under the path that the
    /// settings give, in their order, up to the first that cannot be had or
    /// that the archive refuses.
    pub fn additional_resources(&mut self, resources: &Resources) -> (done: Result<(), Error>)
        requires
            old(self).wf(),
        ensures
            final(self).wf(),
            final(self).after_step(
                old(self),
                resources_written(
                    old(self).context(),
                    old(self).entries(),
                    views(old(self).context().epub.additional_resources@),
                    resources.files@,
                ),
            ),
            ends_with(
                done,
                resources_written(
                    old(self).context(),
                    old(self).entries(),
                    views(old(self).context().epub.additional_resources@),
                    resources.files@,
                ).failure,
            ),
    {
        let ctx = self.ctx;
        let ghost context = self.context();
        let ghost start = self.entries();
        let ghost paths = views(ctx.epub.additional_resources@);
        let ghost mut added: Seq<ArchiveEntry> = Seq::empty();
        let mut i: usize = 0;
        assert(start + added == start);
        assert(paths.take(0) == Seq::<Seq<char>>::empty());
        while i < ctx.epub.additional_resources.len()
            invariant
                i <= ctx.epub.additional_resources.len(),
                self.wf(),
                self.same_but_entries(old(self)),
                ctx == old(self).ctx,
                context == old(self).context(),
                context == *ctx,
                start == old(self).entries(),
                paths == views(ctx.epub.additional_resources@),
                resources_written(context, start, paths.take(i as int), resources.files@) == (Written {
                    entries: added,
                    failure: None,
                }),
                self.entries() == start + added,
            decreases ctx.epub.additional_resources.len() - i,
        {
            assert(paths.take(i + 1).drop_last() == paths.take(i as int));
            assert(paths.take(i + 1).last() == ctx.epub.additional_resources@[i as int]@);
            let ghost step = file_written(
                context,
                start + added,
                ctx.epub.additional_resources@[i as int]@,
                false,
                resources.files@,
            );
            proof {
                lemma_resources_prefix_failure(context, start, paths, i + 1, resources.files@);
                assert(start + added + step.entries == start + (added + step.entries));
            }
            match self.add_file(&ctx.epub.additional_resources[i], false, resources) {
                Ok(()) => {},
                Err(error) => {
                    return Err(error);
                },
            }
            proof {
                added = added + step.entries;
            }
            i = i + 1;
        }
        assert(paths.take(paths.len() as int) == paths);
        Ok(())
    }

    /// Fills the archive: the metadata, the assets, the pages of the chapters,
    /// the cover image, the stylesheet, the assets' files and the files of the
    /// settings, in this order. The first step that fails ends the build with
    /// its error; what was written before stays written.
    pub fn assemble(&mut self, resources: &Resources) -> (done: Result<(), Error>)
        requires
            old(self).wf(),
        ensures
            final(self).wf(),
            final(self).same_setup(old(self)),
            final(self).context() == old(self).context(),
            final(self).preprocessors() == old(self).preprocessors(),
            final(self).metadata() == metadata_applied(
                old(self).metadata(),
                metadata_settings(old(self).context().config),
            ),
            final(self).entries() == old(self).entries() + built(
                old(self).context(),
                old(self).preprocessors(),
                old(self).entries(),
                *resources,
            ).entries,
            ends_with(
                done,
                built(
                    old(self).context(),
                    old(self).preprocessors(),
                    old(self).entries(),
                    *resources,
                ).failure,
            ),
            match expected_assets(old(self).context(), *resources) {
                Ok(assets) => final(self).assets() == assets && final(self).warnings() == old(
                    self,
                ).warnings() + title_warnings(old(self).context().config) + asset_warnings(assets),
                Err(_) => final(self).assets() == old(self).assets() && final(self).warnings()
                    == old(self).warnings() + title_warnings(old(self).context().config),
            },
    {
        let ghost start = self.entries();
        assert(start + Seq::<ArchiveEntry>::empty() == start);
        match self.populate_metadata() {
            Ok(()) => {},
            Err(error) => {
                return Err(error);
            },
        }
        match self.find_assets(resources) {
            Ok(()) => {},
            Err(error) => {
                return Err(error);
            },
        }
        let ghost context = self.context();
        let ghost assets = self.assets();
        let ghost preprocessors = self.preprocessors();
        let ghost files = resources.files@;
        let ghost pages = items_written(context, assets, preprocessors, start, context.book.sections@);
        match self.generate_chapters() {
            Ok(()) => {},
            Err(error) => {
                return Err(error);
            },
        }
        let ghost cover = followed(pages, cover_written(context, start + pages.entries, files));
        assert(start + pages.entries + cover_written(context, start + pages.entries, files).entries
            == start + cover.entries);
        match self.add_cover_image(resources) {
            Ok(()) => {},
            Err(error) => {
                return Err(error);
            },
        }
        let ghost stylesheet = followed(cover, stylesheet_written(context, start + cover.entries, files));
        assert(start + cover.entries + stylesheet_written(context, start + cover.entries, files).entries
            == start + stylesheet.entries);
        match self.embed_stylesheets(resources) {
            Ok(()) => {},
            Err(error) => {
                return Err(error);
            },
        }
        let ghost with_assets = followed(
            stylesheet,
            entries_written(start + stylesheet.entries, asset_entries(assets)),
        );
        assert(start + stylesheet.entries + entries_written(
            start + stylesheet.entries,
            asset_entries(assets),
        ).entries == start + with_assets.entries);
        match self.additional_assets() {
            Ok(()) => {},
            Err(error) => {
                return Err(error);
            },
        }
        let ghost extra = resources_written(
            context,
            start + with_assets.entries,
            views(context.epub.additional_resources@),
            files,
        );
        assert(start + with_assets.entries + extra.entries == start + (with_assets.entries
            + extra.entries));
        self.additional_resources(resources)
    }

    /// Builds the archive and hands out its bytes, with what there was to warn
    /// of. A build that fails while the archive is filled fails with the error
    /// of that step; one whose archive cannot be closed fails with
    /// `EpubBuilder` and the message of the archive.
    pub fn generate(self, resources: &Resources) -> (epub: Result<Epub, Error>)
        requires
            self.wf(),
        ensures
            match self.outcome(*resources) {
                Some(expected) => epub matches Err(error) && error@ == expected,
                None => epub matches Ok(made) && (expected_assets(self.context(), *resources) matches Ok(
                    assets,
                ) && made.bytes@.len() > 0 && views(made.warnings@) == self.warnings()
                    + title_warnings(self.context().config) + asset_warnings(assets)),
            },
    {
        let mut generator = self;
        match generator.assemble(resources) {
            Ok(()) => {},
            Err(error) => {
                return Err(error);
            },
        }
        match finish(generator.archive) {
            Ok(bytes) => Ok(Epub { bytes, warnings: generator.warnings }),
            Err(reason) => Err(Error::EpubBuilder(reason)),
        }
    }

    /// A parser for the markdown `text`, with tables, footnotes, strikethrough
    /// and task lists enabled.
    pub fn new_cmark_parser(text: &str) -> (parser: Parser<'_, '_>)
        ensures
            crate::markdown::parser_events(parser) == crate::markdown::markdown_events(
                text@,
                crate::markdown::MARKDOWN_EXTENSIONS,
            ),
    {
        crate::markdown::new_cmark_parser(text)
    }
}

/// The name of the archive of a book without a title.
pub const UNTITLED_FILE: &'static str = "book.epub";

/// Where the archive of a book is written: in `destination`, under the title
/// of the book with the extension `epub`, or as `book.epub` where the book has
/// no title.
pub open spec fn output_path(destination: Seq<char>, title: Option<String>) -> Seq<char> {
    match title {
        Some(title) => with_extension(join(destination, title@), ARCHIVE_EXTENSION@),
        None => join(destination, UNTITLED_FILE@),
    }
}

/// Names the file that the archive of a book is written to.
pub fn output_filename(destination: &str, config: &BookConfig) -> (path: String)
    ensures
        path@ == output_path(destination@, config.title),
{
    proof {
        lemma_extensions();
    }
    match &config.title {
        Some(title) => path_with_extension(
            path_join(destination, title.as_str()).as_str(),
            ARCHIVE_EXTENSION,
        ),
        None => path_join(destination, UNTITLED_FILE),
    }
}

/// The error that a build of the book of `context` ends with once its archive
/// is made, given what the world outside holds; `None` for a build that gives
/// an archive.
pub open spec fn build_outcome<P: Preprocessor>(
    context: RenderContext,
    preprocessors: Seq<P>,
    resources: Resources,
) -> Option<ErrorView> {
    let written = built(context, preprocessors, Seq::empty(), resources);
    match written.failure {
        Some(error) => Some(error),
        None => match closing_refusal(
            written.entries,
            metadata_applied(fresh_metadata(), metadata_settings(context.config)),
        ) {
            Some(reason) => Some(ErrorView::EpubBuilder(reason)),
            None => None,
        },
    }
}

/// What a build leaves behind: the bytes of the archive or the error that ended
/// the build, and what there was to warn of up to then.
#[derive(Debug)]
pub struct Build {
    pub outcome: Result<Vec<u8>, Error>,
    pub warnings: Vec<String>,
}

/// What a build of the book of `context` warns of: a book without a title, and
/// every resource that could not be fetched. A build that ends before the
/// references are resolved warns of the title at most.
pub open spec fn build_warnings(context: RenderContext, resources: Resources) -> Seq<Seq<char>> {
    match expected_assets(context, resources) {
        Ok(assets) => title_warnings(context.config) + asset_warnings(assets),
        Err(_) => title_warnings(context.config),
    }
}

/// Makes the book of `ctx` into an EPUB archive, given what the world outside
/// holds for it, and tells what there was to warn of, whether or not the build
/// gave an archive. A template that does not compile gives `TemplateParse`,
/// and nothing is warned of; any other build ends as `build_outcome` says.
pub fn build<P: Preprocessor>(ctx: &RenderContext, preprocessors: Vec<P>, resources: &Resources) -> (made:
    Build)
    ensures
        made.outcome is Ok <==> template_compiles(template_of(ctx.epub)) && build_outcome(
            *ctx,
            preprocessors@,
            *resources,
        ) is None,
        match made.outcome {
            Ok(bytes) => bytes@.len() > 0,
            Err(error) => if template_compiles(template_of(ctx.epub)) {
                build_outcome(*ctx, preprocessors@, *resources) == Some(error@)
            } else {
                error@ == ErrorView::TemplateParse
            },
        },
        views(made.warnings@) == if template_compiles(template_of(ctx.epub)) {
            build_warnings(*ctx, *resources)
        } else {
            Seq::empty()
        },
{
    let mut generator = match Generator::new(ctx, preprocessors) {
        Ok(generator) => generator,
        Err(error) => {
            let warnings: Vec<String> = Vec::new();
            assert(views(warnings@) =~= Seq::<Seq<char>>::empty());
            return Build { outcome: Err(error), warnings };
        },
    };
    proof {
        assert(generator.warnings() + title_warnings(ctx.config) == title_warnings(ctx.config));
        assert(generator.entries() == Seq::<ArchiveEntry>::empty());
        assert(Seq::<ArchiveEntry>::empty() + built(
            *ctx,
            preprocessors@,
            Seq::empty(),
            *resources,
        ).entries == built(*ctx, preprocessors@, Seq::empty(), *resources).entries);
    }
    match generator.assemble(resources) {
        Ok(()) => {},
        Err(error) => {
            return Build { outcome: Err(error), warnings: generator.warnings };
        },
    }
    match finish(generator.archive) {
        Ok(bytes) => Build { outcome: Ok(bytes), warnings: generator.warnings },
        Err(reason) => Build { outcome: Err(Error::EpubBuilder(reason)), warnings: generator.warnings },
    }
}

/// Makes the book of `ctx` into an EPUB archive, given what the world outside
/// holds for it. A template that does not compile gives `TemplateParse`; any
/// other build ends as `build_outcome` says. What a build that fails had to
/// warn of is dropped; `build` keeps it.
pub fn generate<P: Preprocessor>(ctx: &RenderContext, preprocessors: Vec<P>, resources: &Resources) -> (epub:
    Result<Epub, Error>)
    ensures
        epub is Ok <==> template_compiles(template_of(ctx.epub)) && build_outcome(
            *ctx,
            preprocessors@,
            *resources,
        ) is None,
        match epub {
            Ok(made) => expected_assets(*ctx, *resources) matches Ok(assets) && made.bytes@.len() > 0
                && views(made.warnings@) == title_warnings(ctx.config) + asset_warnings(assets),
            Err(error) => if template_compiles(template_of(ctx.epub)) {
                build_outcome(*ctx, preprocessors@, *resources) == Some(error@)
            } else {
                error@ == ErrorView::TemplateParse
            },
        },
{
    let made = build(ctx, preprocessors, resources);
    match made.outcome {
        Ok(bytes) => Ok(Epub { bytes, warnings: made.warnings }),
        Err(error) => Err(error),
    }
}

} // verus!
