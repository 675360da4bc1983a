use vstd::prelude::*;

verus! {

/// Why a document could not be served. Failures of outside parts carry their
/// message as text.
#[derive(Clone, Debug)]
pub enum ArticleError {
    /// The requested path is not a well-formed document path.
    MalformedPath(String),
    /// The requested path does not name a document file.
    NotMarkdown,
    /// Reading from disk or running the converter failed.
    IoError(String),
    /// No document exists at the path, or none could be produced.
    NoArticle,
    /// A conversion worker did not finish.
    JoinError(String),
    /// The converter's output was not UTF-8.
    Utf8Error(String),
    /// The converter exited with failure; its output is kept.
    PandocFailed(String),
    /// The front matter did not have the shape of document metadata.
    JsonError(String),
    /// The document is marked as not ready for publication.
    NotForPublication,
}

/// The HTTP status that reports each kind of failure.
pub open spec fn status_of(e: ArticleError) -> u16 {
    match e {
        ArticleError::MalformedPath(_) => 400,
        ArticleError::NoArticle | ArticleError::NotMarkdown | ArticleError::NotForPublication => 404,
        _ => 500,
    }
}

/// The one-line description of each kind of failure.
pub open spec fn message_of(e: ArticleError) -> Seq<char> {
    match e {
        ArticleError::MalformedPath(_) => "Malformed path"@,
        ArticleError::NotMarkdown => "Not markdown"@,
        ArticleError::IoError(_) => "IO error"@,
        ArticleError::NoArticle => "No article"@,
        ArticleError::JoinError(_) => "Join error"@,
        ArticleError::Utf8Error(_) => "UTF-8 error"@,
        ArticleError::PandocFailed(_) => "Pandoc failed"@,
        ArticleError::JsonError(_) => "JSON error"@,
        ArticleError::NotForPublication => "This article isn't ready to be published yet"@,
    }
}

impl ArticleError {
    /// The HTTP status to answer with: 400 for a malformed path, 404 when
    /// there is nothing to show, 500 when producing the page failed.
    pub fn status(&self) -> (r: u16)
        ensures
            r == status_of(*self),
    {
        match self {
            ArticleError::MalformedPath(_) => 400,
            ArticleError::NoArticle | ArticleError::NotMarkdown | ArticleError::NotForPublication => 404,
            _ => 500,
        }
    }

    /// A one-line description of the failure.
    pub fn message(&self) -> (r: String)
        ensures
            r@ == message_of(*self),
    {
        match self {
            ArticleError::MalformedPath(_) => "Malformed path".to_string(),
            ArticleError::NotMarkdown => "Not markdown".to_string(),
            ArticleError::IoError(_) => "IO error".to_string(),
            ArticleError::NoArticle => "No article".to_string(),
            ArticleError::JoinError(_) => "Join error".to_string(),
            ArticleError::Utf8Error(_) => "UTF-8 error".to_string(),
            ArticleError::PandocFailed(_) => "Pandoc failed".to_string(),
            ArticleError::JsonError(_) => "JSON error".to_string(),
            ArticleError::NotForPublication => "This article isn't ready to be published yet".to_string(),
        }
    }
}

} // verus!
