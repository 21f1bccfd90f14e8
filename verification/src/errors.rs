//! What can go wrong while a book is made into an archive.

use vstd::prelude::*;
use crate::text::concat;

verus! {

/// The errors of a build. Each of them ends the build: no archive comes out.
#[derive(Debug)]
pub enum Error {
    /// The archive library failed; the field is its message.
    EpubBuilder(String),
    /// The page template does not compile.
    TemplateParse,
    /// A chapter that was to be written has no source path; the field names
    /// the chapter.
    ContentFileNotFound(String),
    /// No file was found for a local reference; the field is the reference.
    AssetFileNotFound(String),
    /// The file of a resource could not be had: it was found nowhere, or it
    /// was found and could not be opened or read. The field is the path that
    /// was tried.
    AssetOpen(String),
    /// A stylesheet could not be opened; the field is its path.
    CssOpen(String),
    /// A stylesheet could not be read to its end; the field is the place
    /// where it was found.
    StylesheetRead(String),
    /// The page of a chapter could not be rendered; the field is the reason.
    Render(String),
    /// A preprocessor failed on a chapter; the field is its message.
    Preprocess(String),
}

/// An `Error` with its strings as sequences of characters.
pub ghost enum ErrorView {
    EpubBuilder(Seq<char>),
    TemplateParse,
    ContentFileNotFound(Seq<char>),
    AssetFileNotFound(Seq<char>),
    AssetOpen(Seq<char>),
    CssOpen(Seq<char>),
    StylesheetRead(Seq<char>),
    Render(Seq<char>),
    Preprocess(Seq<char>),
}

impl View for Error {
    type V = ErrorView;

    open spec fn view(&self) -> ErrorView {
        match self {
            Error::EpubBuilder(reason) => ErrorView::EpubBuilder(reason@),
            Error::TemplateParse => ErrorView::TemplateParse,
            Error::ContentFileNotFound(name) => ErrorView::ContentFileNotFound(name@),
            Error::AssetFileNotFound(reference) => ErrorView::AssetFileNotFound(reference@),
            Error::AssetOpen(path) => ErrorView::AssetOpen(path@),
            Error::CssOpen(path) => ErrorView::CssOpen(path@),
            Error::StylesheetRead(path) => ErrorView::StylesheetRead(path@),
            Error::Render(reason) => ErrorView::Render(reason@),
            Error::Preprocess(reason) => ErrorView::Preprocess(reason@),
        }
    }
}

/// The sentence that tells `error`.
pub open spec fn message_of(error: ErrorView) -> Seq<char> {
    match error {
        ErrorView::EpubBuilder(reason) => "Could not write the archive: "@ + reason,
        ErrorView::TemplateParse => "Could not parse the template"@,
        ErrorView::ContentFileNotFound(name) => "Content file was not found: "@ + name,
        ErrorView::AssetFileNotFound(reference) => "Asset file was not found: "@ + reference,
        ErrorView::AssetOpen(path) => "Unable to open asset "@ + path,
        ErrorView::CssOpen(path) => "Could not open css file "@ + path,
        ErrorView::StylesheetRead(path) => "Error reading stylesheet "@ + path,
        ErrorView::Render(reason) => "Could not render a chapter: "@ + reason,
        ErrorView::Preprocess(reason) => "A preprocessor failed: "@ + reason,
    }
}

/// What a step of the build returns for what the archive library returned: its
/// failure becomes `EpubBuilder` with its message.
pub fn archive_result(done: Result<(), String>) -> (result: Result<(), Error>)
    ensures
        match done {
            Ok(()) => result is Ok,
            Err(reason) => result matches Err(error) && error@ == ErrorView::EpubBuilder(reason@),
        },
{
    match done {
        Ok(()) => Ok(()),
        Err(reason) => Err(Error::EpubBuilder(reason)),
    }
}

/// What rendering returns for what the template engine returned: its failure
/// becomes `Render` with its message.
pub fn render_result(page: Result<String, String>) -> (result: Result<String, Error>)
    ensures
        match page {
            Ok(html) => result matches Ok(kept) && kept@ == html@,
            Err(reason) => result matches Err(error) && error@ == ErrorView::Render(reason@),
        },
{
    match page {
        Ok(html) => Ok(html),
        Err(reason) => Err(Error::Render(reason)),
    }
}

/// What a chapter's markdown becomes for what a preprocessor returned: its
/// failure becomes `Preprocess` with its message.
pub fn preprocess_result(content: Result<String, String>) -> (result: Result<String, Error>)
    ensures
        match content {
            Ok(text) => result matches Ok(kept) && kept@ == text@,
            Err(reason) => result matches Err(error) && error@ == ErrorView::Preprocess(reason@),
        },
{
    match content {
        Ok(text) => Ok(text),
        Err(reason) => Err(Error::Preprocess(reason)),
    }
}

impl Error {
    /// A sentence that tells the error.
    pub fn message(&self) -> (text: String)
        ensures
            text@ == message_of(self@),
    {
        proof {
            reveal_strlit("");
            assert forall|s: Seq<char>| s + ""@ == s by {
                assert(s + ""@ =~= s);
            }
        }
        match self {
            Error::EpubBuilder(reason) => concat("Could not write the archive: ", reason.as_str()),
            Error::TemplateParse => concat("Could not parse the template", ""),
            Error::ContentFileNotFound(name) => concat(
                "Content file was not found: ",
                name.as_str(),
            ),
            Error::AssetFileNotFound(reference) => concat(
                "Asset file was not found: ",
                reference.as_str(),
            ),
            Error::AssetOpen(path) => concat("Unable to open asset ", path.as_str()),
            Error::CssOpen(path) => concat("Could not open css file ", path.as_str()),
            Error::StylesheetRead(path) => concat("Error reading stylesheet ", path.as_str()),
            Error::Render(reason) => concat("Could not render a chapter: ", reason.as_str()),
            Error::Preprocess(reason) => concat("A preprocessor failed: ", reason.as_str()),
        }
    }
}

} // verus!
