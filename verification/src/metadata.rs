//! The metadata of a book: which of them the archive is given, and in which
//! order.

use vstd::prelude::*;
use crate::archive::{is_list_key, is_single_key, metadata_after};
use crate::book::BookConfig;
use crate::files::views;
use crate::text::{concat, push_chars, string_of};

verus! {

/// The name that the archive gives as its generator.
pub const GENERATOR_NAME: &'static str = "mdbook-epub";

/// The language of a book that names none.
pub const DEFAULT_LANGUAGE: &'static str = "en";

/// What is said where a book has no title.
pub const NO_TITLE_WARNING: &'static str =
    "No `title` attribute found yet all EPUB documents should have a title";

/// One of the metadata of a book.
#[derive(Debug, Clone)]
pub struct Setting {
    pub key: String,
    pub value: String,
}

/// The keys and values of `settings`, in order.
pub open spec fn setting_views(settings: Seq<Setting>) -> Seq<(Seq<char>, Seq<char>)> {
    settings.map_values(|setting: Setting| (setting.key@, setting.value@))
}

/// `parts` with `separator` between every two of them.
pub open spec fn joined(parts: Seq<Seq<char>>, separator: Seq<char>) -> Seq<char>
    decreases parts.len(),
{
    if parts.len() == 0 {
        Seq::empty()
    } else if parts.len() == 1 {
        parts[0]
    } else {
        joined(parts.drop_last(), separator) + separator + parts.last()
    }
}

/// The title of the book as one of its metadata, if it has one.
pub open spec fn title_setting(config: BookConfig) -> Seq<(Seq<char>, Seq<char>)> {
    match config.title {
        Some(title) => seq![("title"@, title@)],
        None => Seq::empty(),
    }
}

/// The description of the book as one of its metadata, if it has one.
pub open spec fn description_setting(config: BookConfig) -> Seq<(Seq<char>, Seq<char>)> {
    match config.description {
        Some(description) => seq![("description"@, description@)],
        None => Seq::empty(),
    }
}

/// The authors of the book as one of its metadata, if it has any: their names
/// with `, ` between them.
pub open spec fn author_setting(config: BookConfig) -> Seq<(Seq<char>, Seq<char>)> {
    if config.authors.len() > 0 {
        seq![("author"@, joined(views(config.authors@), ", "@))]
    } else {
        Seq::empty()
    }
}

/// The language of the book: the one it names, or English.
pub open spec fn language_of(config: BookConfig) -> Seq<char> {
    match config.language {
        Some(language) => language@,
        None => DEFAULT_LANGUAGE@,
    }
}

/// The metadata that a book sets, in the order in which they are set: the
/// generator, the title, the description, the authors, the language.
pub open spec fn metadata_settings(config: BookConfig) -> Seq<(Seq<char>, Seq<char>)> {
    seq![("generator"@, GENERATOR_NAME@)] + title_setting(config) + description_setting(config)
        + author_setting(config) + seq![("lang"@, language_of(config))]
}

/// `metadata` after `settings` were set, in order.
pub open spec fn metadata_applied(
    metadata: Map<Seq<char>, Seq<Seq<char>>>,
    settings: Seq<(Seq<char>, Seq<char>)>,
) -> Map<Seq<char>, Seq<Seq<char>>>
    decreases settings.len(),
{
    if settings.len() == 0 {
        metadata
    } else {
        metadata_after(
            metadata_applied(metadata, settings.drop_last()),
            settings.last().0,
            settings.last().1,
        )
    }
}

/// Whether every key of `settings` is one that the archive knows.
pub open spec fn known_keys(settings: Seq<(Seq<char>, Seq<char>)>) -> bool {
    forall|i: int|
        0 <= i < settings.len() ==> is_single_key((#[trigger] settings[i]).0) || is_list_key(
            settings[i].0,
        )
}

/// What is said of a book without a title.
pub open spec fn title_warnings(config: BookConfig) -> Seq<Seq<char>> {
    match config.title {
        Some(_) => Seq::empty(),
        None => seq![NO_TITLE_WARNING@],
    }
}

/// Joins `parts` with `separator` between every two of them.
pub fn join_strings(parts: &Vec<String>, separator: &str) -> (whole: String)
    ensures
        whole@ == joined(views(parts@), separator@),
{
    let mut whole: Vec<char> = Vec::new();
    let ghost all = views(parts@);
    let mut i: usize = 0;
    assert(all.take(0) == Seq::<Seq<char>>::empty());
    while i < parts.len()
        invariant
            i <= parts.len(),
            all == views(parts@),
            whole@ == joined(all.take(i as int), separator@),
        decreases parts.len() - i,
    {
        assert(all.take(i + 1).drop_last() == all.take(i as int));
        assert(all.take(i + 1).last() == parts@[i as int]@);
        if i > 0 {
            push_chars(&mut whole, separator);
        } else {
            assert(all.take(1)[0] == parts@[0]@);
            assert(Seq::<char>::empty() + parts@[0]@ == parts@[0]@);
        }
        push_chars(&mut whole, parts[i].as_str());
        i = i + 1;
    }
    assert(all.take(all.len() as int) == all);
    string_of(&whole)
}

/// Lists the metadata that a book sets, in the order in which they are set.
pub fn metadata_entries(config: &BookConfig) -> (settings: Vec<Setting>)
    ensures
        setting_views(settings@) == metadata_settings(*config),
        known_keys(setting_views(settings@)),
{
    let mut settings: Vec<Setting> = Vec::new();
    settings.push(Setting { key: concat("generator", ""), value: concat(GENERATOR_NAME, "") });
    match &config.title {
        Some(title) => {
            settings.push(Setting { key: concat("title", ""), value: title.clone() });
        },
        None => {},
    }
    match &config.description {
        Some(description) => {
            settings.push(Setting { key: concat("description", ""), value: description.clone() });
        },
        None => {},
    }
    if config.authors.len() > 0 {
        settings.push(
            Setting { key: concat("author", ""), value: join_strings(&config.authors, ", ") },
        );
    }
    let language = match &config.language {
        Some(language) => language.clone(),
        None => concat(DEFAULT_LANGUAGE, ""),
    };
    settings.push(Setting { key: concat("lang", ""), value: language });
    proof {
        reveal_strlit("");
        assert forall|s: Seq<char>| s + ""@ == s by {
            assert(s + ""@ =~= s);
        }
        assert(setting_views(settings@) =~= metadata_settings(*config));
    }
    settings
}

} // verus!
