//! The records that the revision store holds and hands out.

use vstd::prelude::*;

verus! {

/// One immutable version of an article.
#[derive(Debug)]
pub struct ArticleRevision {
    /// Position in the global order of insertions, starting at 1.
    pub sequence_number: i32,
    pub article_id: i32,
    /// Position among the revisions of the same article, starting at 1.
    pub revision: i32,
    /// Time of insertion, in seconds since the Unix epoch.
    pub created: i64,
    pub slug: String,
    pub title: String,
    pub body: String,
    /// Set on the newest revision of each article and on no other.
    pub latest: bool,
    pub author: Option<String>,
}

/// The mathematical content of an `ArticleRevision`.
pub struct RevisionView {
    pub sequence_number: int,
    pub article_id: int,
    pub revision: int,
    pub created: int,
    pub slug: Seq<char>,
    pub title: Seq<char>,
    pub body: Seq<char>,
    pub latest: bool,
    pub author: Option<Seq<char>>,
}

/// The view of an optional string.
pub open spec fn option_view(text: Option<String>) -> Option<Seq<char>> {
    match text {
        Some(s) => Some(s@),
        None => None,
    }
}

/// Copies an optional string.
pub fn clone_option(text: &Option<String>) -> (copy: Option<String>)
    ensures
        option_view(copy) == option_view(*text),
{
    match text {
        Some(s) => Some(s.clone()),
        None => None,
    }
}

impl View for ArticleRevision {
    type V = RevisionView;

    open spec fn view(&self) -> RevisionView {
        RevisionView {
            sequence_number: self.sequence_number as int,
            article_id: self.article_id as int,
            revision: self.revision as int,
            created: self.created as int,
            slug: self.slug@,
            title: self.title@,
            body: self.body@,
            latest: self.latest,
            author: option_view(self.author),
        }
    }
}

impl Clone for ArticleRevision {
    fn clone(&self) -> (copy: Self)
        ensures
            copy@ == self@,
    {
        ArticleRevision {
            sequence_number: self.sequence_number,
            article_id: self.article_id,
            revision: self.revision,
            created: self.created,
            slug: self.slug.clone(),
            title: self.title.clone(),
            body: self.body.clone(),
            latest: self.latest,
            author: clone_option(&self.author),
        }
    }
}

/// An `ArticleRevision` without its body, for listings.
#[derive(Debug)]
pub struct ArticleRevisionStub {
    pub sequence_number: i32,
    pub article_id: i32,
    pub revision: i32,
    pub created: i64,
    pub slug: String,
    pub title: String,
    pub latest: bool,
    pub author: Option<String>,
}

/// The mathematical content of an `ArticleRevisionStub`.
pub struct StubView {
    pub sequence_number: int,
    pub article_id: int,
    pub revision: int,
    pub created: int,
    pub slug: Seq<char>,
    pub title: Seq<char>,
    pub latest: bool,
    pub author: Option<Seq<char>>,
}

impl View for ArticleRevisionStub {
    type V = StubView;

    open spec fn view(&self) -> StubView {
        StubView {
            sequence_number: self.sequence_number as int,
            article_id: self.article_id as int,
            revision: self.revision as int,
            created: self.created as int,
            slug: self.slug@,
            title: self.title@,
            latest: self.latest,
            author: option_view(self.author),
        }
    }
}

/// What remains of a revision when its body is left out.
pub open spec fn stub_of(row: RevisionView) -> StubView {
    StubView {
        sequence_number: row.sequence_number,
        article_id: row.article_id,
        revision: row.revision,
        created: row.created,
        slug: row.slug,
        title: row.title,
        latest: row.latest,
        author: row.author,
    }
}

impl ArticleRevision {
    /// The listing entry for this revision.
    pub fn stub(&self) -> (stub: ArticleRevisionStub)
        ensures
            stub@ == stub_of(self@),
    {
        ArticleRevisionStub {
            sequence_number: self.sequence_number,
            article_id: self.article_id,
            revision: self.revision,
            created: self.created,
            slug: self.slug.clone(),
            title: self.title.clone(),
            latest: self.latest,
            author: clone_option(&self.author),
        }
    }
}

/// Why the store could not carry out an operation.
#[derive(Debug, Clone, Copy, PartialEq, Eq, Structural)]
pub enum StoreFailure {
    /// The article to update has no revisions.
    NoSuchArticle,
    /// The sequence numbers are used up.
    Exhausted,
    /// The rows to load do not form a table that the store could have
    /// written.
    Corrupt,
}

/// The failures that the engine reports to its callers.
#[derive(Debug, Clone, Copy, PartialEq, Eq, Structural)]
pub enum Error {
    /// The caller's data breaks a precondition of the operation: the title
    /// is empty.
    Validation,
    /// The edit was based on a revision that is no longer the latest one.
    Conflict { latest_revision: i32 },
    /// The store failed; nothing was written.
    Store(StoreFailure),
    /// A path segment is not the percent-encoding of well-formed UTF-8.
    Decode,
}

/// The outcome of resolving a slug against the store.
#[derive(Debug)]
pub enum SlugLookup {
    /// No revision, current or historical, ever held the slug.
    Miss,
    /// The latest revision of an article holds the slug.
    Hit { article_id: i32, revision: i32 },
    /// The slug was last held by a superseded revision of an article that
    /// now lives under the given slug.
    Redirect(String),
}

/// The mathematical content of a `SlugLookup`.
pub enum SlugLookupView {
    Miss,
    Hit { article_id: int, revision: int },
    Redirect(Seq<char>),
}

impl View for SlugLookup {
    type V = SlugLookupView;

    open spec fn view(&self) -> SlugLookupView {
        match self {
            SlugLookup::Miss => SlugLookupView::Miss,
            SlugLookup::Hit { article_id, revision } => SlugLookupView::Hit {
                article_id: *article_id as int,
                revision: *revision as int,
            },
            SlugLookup::Redirect(slug) => SlugLookupView::Redirect(slug@),
        }
    }
}

} // verus!
