//! The resource behind a path that leads to no article yet: the place
//! where a new article is composed and created.

use crate::history::{after_create, create_error, created_row, slug_in_use};
use crate::models::{clone_option, option_view, ArticleRevision, Error};
use crate::slugs::{is_slug, is_slug_char, is_slug_text};
use crate::state::SyncState;
use vstd::prelude::*;

verus! {

/// The title-cased form that the `titlecase` crate gives to `text`.
pub uninterp spec fn titlecased(text: Seq<char>) -> Seq<char>;

/// Whether `text` is made of lower-case letters of the Latin alphabet,
/// digits and spaces.
pub open spec fn is_plain_words(text: Seq<char>) -> bool {
    forall|i: int|
        0 <= i < text.len() ==> {
            let c = #[trigger] text[i];
            ||| 'a' <= c <= 'z'
            ||| '0' <= c <= '9'
            ||| c == ' '
        }
}

/// Calls `titlecase::titlecase`, on plain words only: for a word that
/// begins with brackets the outside function calls itself once for every
/// bracket, to a depth that nothing bounds. The result is a function of the
/// text alone and is known to the proofs only under the name `titlecased`.
#[verifier::external_body]
pub(crate) fn titlecase(text: &str) -> (title: String)
    requires
        is_plain_words(text@),
    ensures
        title@ == titlecased(text@),
{
    ::titlecase::titlecase(text)
}

/// `slug` with a space in the place of every hyphen.
pub open spec fn spaced(slug: Seq<char>) -> Seq<char> {
    Seq::new(
        slug.len(),
        |i: int|
            if slug[i] == '-' {
                ' '
            } else {
                slug[i]
            },
    )
}

/// The title to propose for an article that is to live under `slug`: the
/// words of the slug in title case.
pub fn title_from_slug(slug: &str) -> (title: String)
    requires
        is_slug_text(slug@),
    ensures
        title@ == titlecased(spaced(slug@)),
{
    let mut words = String::new();
    for c in it: slug.chars()
        invariant
            it.seq() == slug@,
            is_slug_text(slug@),
            words@ == spaced(slug@).take(it.index() as int),
    {
        if c == '-' {
            words.push(' ');
        } else {
            words.push(c);
        }
        assert(words@ =~= spaced(slug@).take(it.index() as int + 1));
    }
    assert(words@ =~= spaced(slug@));
    assert(is_plain_words(words@)) by {
        assert forall|i: int| 0 <= i < words@.len() implies is_slug_char(slug@[i]) by {}
    }
    titlecase(words.as_str())
}

/// The composer for a new article.
#[derive(Debug)]
pub struct NewArticleResource {
    /// The slug that the visitor asked for, if the composer was reached
    /// through the path of an article that does not exist.
    pub slug: Option<String>,
}

impl View for NewArticleResource {
    type V = Option<Seq<char>>;

    open spec fn view(&self) -> Option<Seq<char>> {
        option_view(self.slug)
    }
}

/// The title that the composer proposes: the words of the requested slug
/// in title case; what was requested as it stands, if it is no slug; and
/// none where nothing was requested.
pub open spec fn proposed_title(slug: Option<Seq<char>>) -> Seq<char> {
    match slug {
        Some(s) => if is_slug_text(s) {
            titlecased(spaced(s))
        } else {
            s
        },
        None => Seq::empty(),
    }
}

impl NewArticleResource {
    /// The composer for an article that is to live under `slug`.
    pub fn new(slug: Option<String>) -> (resource: Self)
        ensures
            resource@ == option_view(slug),
    {
        NewArticleResource { slug }
    }

    /// The title to show in the empty composer.
    pub fn title(&self) -> (title: String)
        ensures
            title@ == proposed_title(self@),
    {
        match &self.slug {
            Some(slug) => if is_slug(slug.as_str()) {
                title_from_slug(slug.as_str())
            } else {
                slug.clone()
            },
            None => String::new(),
        }
    }

    /// Creates the article that was composed, under the slug that the
    /// visitor asked for if there is one.
    pub fn create(
        &self,
        state: &mut SyncState,
        title: String,
        body: String,
        author: Option<String>,
        created: i64,
    ) -> (inserted: Result<ArticleRevision, Error>)
        requires
            old(state).wf(),
        ensures
            final(state).wf(),
            match inserted {
                Ok(row) => {
                    &&& create_error(old(state)@, title@) is None
                    &&& row@ == created_row(
                        old(state)@,
                        self@,
                        title@,
                        body@,
                        option_view(author),
                        created as int,
                    )
                    &&& final(state)@ == after_create(old(state)@, row@)
                    &&& final(state).resolves() <==> old(state).resolves() && !slug_in_use(
                        old(state)@.revisions,
                        row@.article_id,
                        row@.slug,
                    )
                },
                Err(e) => create_error(old(state)@, title@) == Some(e) && final(state)@ == old(
                    state,
                )@,
            },
    {
        state.create_article(clone_option(&self.slug), title, body, author, created)
    }
}

} // verus!
