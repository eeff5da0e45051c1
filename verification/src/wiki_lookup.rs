//! The dispatcher: from the path and the query string of a request to the
//! resource that answers it.

use crate::history::slug_lookup;
use crate::models::{Error, RevisionView, SlugLookup, SlugLookupView};
use crate::new_article_resource::NewArticleResource;
use crate::paths::{split_one, split_path};
use crate::search::string_views;
use crate::slugs::{slugified, slugify};
use crate::state::SyncState;
use vstd::prelude::*;
use vstd::string::StrSliceExecFns;

verus! {

/// What answers a request.
#[derive(Debug)]
pub enum Resource {
    /// The viewer of a revision of an article, or its editor.
    Article { article_id: i32, revision: i32, edit: bool },
    /// A redirect to the article under the given slug.
    ArticleRedirect { slug: String },
    /// The composer for a new article.
    NewArticle(NewArticleResource),
    /// The feed of changes, for the page that the query string selects.
    Changes { query: String },
    /// The list of all articles.
    Sitemap,
    /// The static asset at the given place in the table of assets.
    Asset { index: usize },
}

/// The mathematical content of a `Resource`.
pub enum ResourceView {
    Article { article_id: int, revision: int, edit: bool },
    ArticleRedirect { slug: Seq<char> },
    NewArticle { requested: Option<Seq<char>> },
    Changes { query: Seq<char> },
    Sitemap,
    Asset { index: int },
}

impl View for Resource {
    type V = ResourceView;

    open spec fn view(&self) -> ResourceView {
        match self {
            Resource::Article { article_id, revision, edit } => ResourceView::Article {
                article_id: *article_id as int,
                revision: *revision as int,
                edit: *edit,
            },
            Resource::ArticleRedirect { slug } => ResourceView::ArticleRedirect { slug: slug@ },
            Resource::NewArticle(composer) => ResourceView::NewArticle { requested: composer@ },
            Resource::Changes { query } => ResourceView::Changes { query: query@ },
            Resource::Sitemap => ResourceView::Sitemap,
            Resource::Asset { index } => ResourceView::Asset { index: *index as int },
        }
    }
}

/// The view of an optional resource.
pub open spec fn option_resource_view(resource: Option<Resource>) -> Option<ResourceView> {
    match resource {
        Some(r) => Some(r@),
        None => None,
    }
}

/// What is left to do for a request once its path has been looked at.
#[derive(Debug)]
pub enum Route {
    /// Nothing: the answer does not depend on the store.
    Settled(Option<Resource>),
    /// The slug is to be looked up in the store.
    Lookup { slug: String, edit: bool },
}

/// The mathematical content of an `Route`.
pub enum RouteView {
    Settled(Option<ResourceView>),
    Lookup { slug: Seq<char>, edit: bool },
}

impl View for Route {
    type V = RouteView;

    open spec fn view(&self) -> RouteView {
        match self {
            Route::Settled(resource) => RouteView::Settled(
                option_resource_view(*resource),
            ),
            Route::Lookup { slug, edit } => RouteView::Lookup {
                slug: slug@,
                edit: *edit,
            },
        }
    }
}

/// The index of the last name among the first `n` that equals `name`, or -1
/// if there is none.
pub open spec fn asset_before(names: Seq<Seq<char>>, name: Seq<char>, n: int) -> int
    decreases n,
{
    if n <= 0 {
        -1
    } else if names[n - 1] == name {
        n - 1
    } else {
        asset_before(names, name, n - 1)
    }
}

/// The place of the asset with the given name in the table: that of the
/// last entry with that name, or -1 if there is none.
pub open spec fn asset_index(names: Seq<Seq<char>>, name: Seq<char>) -> int {
    asset_before(names, name, names.len() as int)
}

/// What `asset_lookup` returns: the asset that a path of one segment
/// names, if the table has it.
pub open spec fn found_asset(names: Seq<Seq<char>>, path: Seq<char>) -> Result<
    Option<ResourceView>,
    Error,
> {
    match split_path(path) {
        Err(e) => Err(e),
        Ok((head, tail)) => if tail is None && asset_index(names, head) >= 0 {
            Ok(Some(ResourceView::Asset { index: asset_index(names, head) }))
        } else {
            Ok(None)
        },
    }
}

/// The query string of a request, or the empty one if it has none.
pub open spec fn query_or_empty(query: Option<Seq<char>>) -> Seq<char> {
    match query {
        Some(q) => q,
        None => Seq::empty(),
    }
}

/// What `reserved_lookup` returns: the system resource that a reserved
/// path names, if it names one.
pub open spec fn reserved_resource(
    names: Seq<Seq<char>>,
    path: Seq<char>,
    query: Option<Seq<char>>,
) -> Result<Option<ResourceView>, Error> {
    match split_path(path) {
        Err(e) => Err(e),
        Ok((head, tail)) => if head == "_assets"@ && tail is Some {
            found_asset(names, tail->0)
        } else if head == "_changes"@ && tail is None {
            Ok(Some(ResourceView::Changes { query: query_or_empty(query) }))
        } else if head == "_new"@ && tail is None {
            Ok(Some(ResourceView::NewArticle { requested: None }))
        } else if head == "_sitemap"@ && tail is None {
            Ok(Some(ResourceView::Sitemap))
        } else {
            Ok(None)
        },
    }
}

/// What `article_route` returns. A path of more than one segment leads
/// nowhere. A segment that is not its own slug leads to a redirect to its
/// slug. Any other segment is to be looked up, for editing if the query
/// string says so.
pub open spec fn planned_route(path: Seq<char>, query: Option<Seq<char>>) -> Result<
    RouteView,
    Error,
> {
    match split_path(path) {
        Err(e) => Err(e),
        Ok((segment, tail)) => if tail is Some {
            Ok(RouteView::Settled(None))
        } else if slugified(segment) != segment {
            Ok(
                RouteView::Settled(
                    Some(ResourceView::ArticleRedirect { slug: slugified(segment) }),
                ),
            )
        } else {
            Ok(RouteView::Lookup { slug: segment, edit: query == Some("edit"@) })
        },
    }
}

/// What `resolve_lookup` returns: the resource for a slug, given what the
/// store knows of it.
pub open spec fn resolved(slug: Seq<char>, edit: bool, found: SlugLookupView) -> ResourceView {
    match found {
        SlugLookupView::Miss => ResourceView::NewArticle { requested: Some(slug) },
        SlugLookupView::Hit { article_id, revision } => ResourceView::Article {
            article_id,
            revision,
            edit,
        },
        SlugLookupView::Redirect(target) => ResourceView::ArticleRedirect { slug: target },
    }
}

/// What `article_lookup` returns: the resource that the path of an article
/// leads to.
pub open spec fn article_resource(
    rows: Seq<RevisionView>,
    path: Seq<char>,
    query: Option<Seq<char>>,
) -> Result<Option<ResourceView>, Error> {
    match planned_route(path, query) {
        Err(e) => Err(e),
        Ok(RouteView::Settled(resource)) => Ok(resource),
        Ok(RouteView::Lookup { slug, edit }) => Ok(
            Some(resolved(slug, edit, slug_lookup(rows, slug))),
        ),
    }
}

/// What `lookup` returns for a path that begins with a slash: a system
/// resource if an underscore follows the slash, and what the path of an
/// article leads to if not.
pub open spec fn routed(
    names: Seq<Seq<char>>,
    rows: Seq<RevisionView>,
    path: Seq<char>,
    query: Option<Seq<char>>,
) -> Result<Option<ResourceView>, Error> {
    let rest = path.skip(1);
    if rest.len() > 0 && rest[0] == '_' {
        reserved_resource(names, rest, query)
    } else {
        article_resource(rows, rest, query)
    }
}

/// What `route` returns for a path that begins with a slash: all that can
/// be said of the request without the store.
pub open spec fn routed_plan(names: Seq<Seq<char>>, path: Seq<char>, query: Option<Seq<char>>) -> Result<
    RouteView,
    Error,
> {
    let rest = path.skip(1);
    if rest.len() > 0 && rest[0] == '_' {
        match reserved_resource(names, rest, query) {
            Ok(resource) => Ok(RouteView::Settled(resource)),
            Err(e) => Err(e),
        }
    } else {
        planned_route(rest, query)
    }
}

/// Looking a request up is planning its route and then asking the store
/// what the route leaves open.
pub proof fn lemma_routed_by_plan(
    names: Seq<Seq<char>>,
    rows: Seq<RevisionView>,
    path: Seq<char>,
    query: Option<Seq<char>>,
)
    ensures
        routed(names, rows, path, query) == match routed_plan(names, path, query) {
            Err(e) => Err::<Option<ResourceView>, _>(e),
            Ok(RouteView::Settled(resource)) => Ok(resource),
            Ok(RouteView::Lookup { slug, edit }) => Ok(
                Some(resolved(slug, edit, slug_lookup(rows, slug))),
            ),
        },
{
}

/// The view of an optional string slice.
pub open spec fn query_view(query: Option<&str>) -> Option<Seq<char>> {
    match query {
        Some(q) => Some(q@),
        None => None,
    }
}

/// Whether `text` reads as `word`.
fn reads(text: &String, word: &str) -> (same: bool)
    ensures
        same == (text@ == word@),
{
    *text == word.to_owned()
}

/// Looks at the path of an article and the query string, and says what
/// remains to be asked of the store.
pub fn article_route(path: &str, query: Option<&str>) -> (route: Result<Route, Error>)
    ensures
        match route {
            Ok(r) => planned_route(path@, query_view(query)) == Ok::<_, Error>(r@),
            Err(e) => planned_route(path@, query_view(query)) == Err::<RouteView, _>(e),
        },
{
    let (segment, tail) = match split_one(path) {
        Ok(parts) => parts,
        Err(e) => {
            return Err(e);
        },
    };
    if tail.is_some() {
        return Ok(Route::Settled(None));
    }
    let slug = slugify(segment.as_str());
    if !(slug == segment) {
        return Ok(Route::Settled(Some(Resource::ArticleRedirect { slug })));
    }
    let edit = match query {
        Some(q) => q.to_owned() == "edit".to_owned(),
        None => false,
    };
    Ok(Route::Lookup { slug: segment, edit })
}

/// Turns what the store knows of a slug into the resource for it: the
/// composer if no article ever lived there, the article if one lives
/// there, and a redirect if one has moved away.
pub fn resolve_lookup(slug: String, edit: bool, found: SlugLookup) -> (resource: Resource)
    ensures
        resource@ == resolved(slug@, edit, found@),
{
    match found {
        SlugLookup::Miss => Resource::NewArticle(NewArticleResource::new(Some(slug))),
        SlugLookup::Hit { article_id, revision } => Resource::Article { article_id, revision, edit },
        SlugLookup::Redirect(target) => Resource::ArticleRedirect { slug: target },
    }
}

/// The dispatcher, with the table of the static assets that it serves.
pub struct WikiLookup {
    assets: Vec<String>,
}

impl WikiLookup {
    /// The names of the static assets, in the order of the table.
    pub closed spec fn asset_names(&self) -> Seq<Seq<char>> {
        string_views(self.assets@)
    }

    /// A dispatcher that serves the assets with the given names.
    pub fn new(assets: Vec<String>) -> (lookup: WikiLookup)
        ensures
            lookup.asset_names() == string_views(assets@),
    {
        WikiLookup { assets }
    }

    /// Finds the asset that the rest of an asset path names.
    ///
    /// The path names an asset if it has one segment and the table holds
    /// the decoded segment. Fails if the segment does not decode.
    pub fn asset_lookup(&self, path: &str) -> (found: Result<Option<Resource>, Error>)
        ensures
            match found {
                Ok(resource) => found_asset(self.asset_names(), path@) == Ok::<_, Error>(
                    option_resource_view(resource),
                ),
                Err(e) => found_asset(self.asset_names(), path@) == Err::<
                    Option<ResourceView>,
                    _,
                >(e),
            },
    {
        let (head, tail) = match split_one(path) {
            Ok(parts) => parts,
            Err(e) => {
                return Err(e);
            },
        };
        if tail.is_some() {
            return Ok(None);
        }
        let mut i: usize = self.assets.len();
        while i > 0
            invariant
                i <= self.assets.len(),
                split_path(path@) == Ok::<_, Error>((head@, None::<Seq<char>>)),
                asset_index(self.asset_names(), head@) == asset_before(
                    self.asset_names(),
                    head@,
                    i as int,
                ),
            decreases i,
        {
            i = i - 1;
            if self.assets[i] == head {
                return Ok(Some(Resource::Asset { index: i }));
            }
        }
        Ok(None)
    }

    /// Finds the system resource that a reserved path names.
    ///
    /// Fails if the first segment of the path, or of the rest of an asset
    /// path, does not decode.
    pub fn reserved_lookup(&self, path: &str, query: Option<&str>) -> (found: Result<
        Option<Resource>,
        Error,
    >)
        ensures
            match found {
                Ok(resource) => reserved_resource(self.asset_names(), path@, query_view(query))
                    == Ok::<_, Error>(option_resource_view(resource)),
                Err(e) => reserved_resource(self.asset_names(), path@, query_view(query)) == Err::<
                    Option<ResourceView>,
                    _,
                >(e),
            },
    {
        let (head, tail) = match split_one(path) {
            Ok(parts) => parts,
            Err(e) => {
                return Err(e);
            },
        };
        match tail {
            Some(rest) => {
                if reads(&head, "_assets") {
                    self.asset_lookup(rest.as_str())
                } else {
                    Ok(None)
                }
            },
            None => {
                if reads(&head, "_changes") {
                    let query = match query {
                        Some(q) => q.to_owned(),
                        None => String::new(),
                    };
                    Ok(Some(Resource::Changes { query }))
                } else if reads(&head, "_new") {
                    Ok(Some(Resource::NewArticle(NewArticleResource::new(None))))
                } else if reads(&head, "_sitemap") {
                    Ok(Some(Resource::Sitemap))
                } else {
                    Ok(None)
                }
            },
        }
    }

    /// Finds the resource that the path of an article leads to.
    ///
    /// Fails if the path does not decode.
    pub fn article_lookup(&self, state: &SyncState, path: &str, query: Option<&str>) -> (found:
        Result<Option<Resource>, Error>)
        requires
            state.wf(),
        ensures
            match found {
                Ok(resource) => article_resource(state@.revisions, path@, query_view(query))
                    == Ok::<_, Error>(option_resource_view(resource)),
                Err(e) => article_resource(state@.revisions, path@, query_view(query)) == Err::<
                    Option<ResourceView>,
                    _,
                >(e),
            },
    {
        match article_route(path, query) {
            Err(e) => Err(e),
            Ok(Route::Settled(resource)) => Ok(resource),
            Ok(Route::Lookup { slug, edit }) => {
                match state.lookup_slug(slug.clone()) {
                    Ok(found) => Ok(Some(resolve_lookup(slug, edit, found))),
                    Err(e) => Err(e),
                }
            },
        }
    }

    /// Looks at the path and the query string of a request, and says which
    /// resource answers it or what remains to be asked of the store.
    ///
    /// Fails if the path does not decode.
    pub fn route(&self, path: &str, query: Option<&str>) -> (route: Result<Route, Error>)
        requires
            path@.len() > 0,
            path@[0] == '/',
        ensures
            match route {
                Ok(r) => routed_plan(self.asset_names(), path@, query_view(query)) == Ok::<
                    _,
                    Error,
                >(r@),
                Err(e) => routed_plan(self.asset_names(), path@, query_view(query)) == Err::<
                    RouteView,
                    _,
                >(e),
            },
    {
        let length = path.unicode_len();
        let rest = path.substring_char(1, length);
        assert(rest@ =~= path@.skip(1));
        if length > 1 && rest.get_char(0) == '_' {
            match self.reserved_lookup(rest, query) {
                Ok(resource) => Ok(Route::Settled(resource)),
                Err(e) => Err(e),
            }
        } else {
            article_route(rest, query)
        }
    }

    /// Finds the resource that answers a request, if there is one.
    ///
    /// Fails if the path does not decode.
    pub fn lookup(&self, state: &SyncState, path: &str, query: Option<&str>) -> (found: Result<
        Option<Resource>,
        Error,
    >)
        requires
            state.wf(),
            path@.len() > 0,
            path@[0] == '/',
        ensures
            match found {
                Ok(resource) => routed(
                    self.asset_names(),
                    state@.revisions,
                    path@,
                    query_view(query),
                ) == Ok::<_, Error>(option_resource_view(resource)),
                Err(e) => routed(self.asset_names(), state@.revisions, path@, query_view(query))
                    == Err::<Option<ResourceView>, _>(e),
            },
    {
        let length = path.unicode_len();
        let rest = path.substring_char(1, length);
        assert(rest@ =~= path@.skip(1));
        if length > 1 && rest.get_char(0) == '_' {
            self.reserved_lookup(rest, query)
        } else {
            self.article_lookup(state, rest, query)
        }
    }
}

} // verus!
