//! The revision store: an append-only table of article revisions in which
//! every operation either takes effect as a whole or leaves no trace.

use crate::history::{
    after_create, after_update, article_revision, article_slug, create_error, created_row,
    current_before, current_row, greatest_article, holder_before, last_holder,
    lemma_count_bounded, lemma_greatest_article, revision_count, revisions_before, store_of,
    lemma_create_resolves, lemma_create_well_formed, lemma_current_before,
    lemma_one_latest_per_article, lemma_update_resolves, lemma_update_well_formed,
    numbered_before, numbered_row, occupies, row_well_formed, slug_in_use, slug_lookup,
    slugs_resolve, update_error, updated_row, well_formed, TableView,
};
use crate::laws::{empty_store, step, Step};
use crate::listing::{
    chars_of, entries_at, latest_by_title, listing, ordered, reversed, selected,
    sort_by_title, stub_views, StubOrder, StubQuery,
};
use crate::models::{
    option_view, stub_of, ArticleRevision, ArticleRevisionStub, Error, RevisionView, SlugLookup,
    StoreFailure,
};
use crate::search::{build_match_expression, prepared_search, SearchQuery};
use crate::slugs::{
    base_slug, candidate, decided_slug, disambiguated, lemma_decided_slug,
    lemma_first_free_unique, lemma_taken_candidates_bounded, make_candidate, slugified, slugify,
};
use vstd::prelude::*;

verus! {

/// The store. Its rows are never changed or removed once written, but for
/// the `latest` flag, which moves to the newest revision of an article.
pub struct SyncState {
    revisions: Vec<ArticleRevision>,
    articles: i32,
}

/// The views of the rows of a table.
pub open spec fn row_views(rows: Seq<ArticleRevision>) -> Seq<RevisionView> {
    Seq::new(rows.len(), |i: int| rows[i]@)
}

/// The view of an optional string slice.
pub open spec fn option_str_view(text: Option<&str>) -> Option<Seq<char>> {
    match text {
        Some(s) => Some(s@),
        None => None,
    }
}

/// The view of an optional revision.
pub open spec fn option_revision_view(row: Option<ArticleRevision>) -> Option<RevisionView> {
    match row {
        Some(r) => Some(r@),
        None => None,
    }
}

impl View for SyncState {
    type V = TableView;

    closed spec fn view(&self) -> TableView {
        TableView { revisions: row_views(self.revisions@), articles: self.articles as int }
    }
}

impl SyncState {
    /// Whether the store satisfies its invariant.
    pub open spec fn wf(&self) -> bool {
        well_formed(self@)
    }

    /// An empty store.
    pub fn new() -> (state: SyncState)
        ensures
            state.wf(),
            state@ == empty_store(),
    {
        let state = SyncState { revisions: Vec::new(), articles: 0 };
        assert(state@.revisions =~= empty_store().revisions);
        state
    }

    /// The store that consists of the given rows, as they might come from
    /// a durable copy of the table.
    ///
    /// Fails exactly if the rows do not form a well-formed table.
    pub fn from_revisions(revisions: Vec<ArticleRevision>) -> (loaded: Result<SyncState, Error>)
        ensures
            match loaded {
                Ok(state) => state.wf() && state@ == store_of(row_views(revisions@)),
                Err(e) => e == Error::Store(StoreFailure::Corrupt) && !well_formed(
                    store_of(row_views(revisions@)),
                ),
            },
    {
        let ghost rows = row_views(revisions@);
        let ghost store = store_of(rows);
        let n = revisions.len();
        if n > i32::MAX as usize {
            return Err(Error::Store(StoreFailure::Corrupt));
        }
        let mut articles: i32 = 0;
        let mut i: usize = 0;
        while i < n
            invariant
                i <= n,
                n == revisions.len(),
                rows == row_views(revisions@),
                articles == greatest_article(rows, i as int),
            decreases n - i,
        {
            if revisions[i].article_id > articles {
                articles = revisions[i].article_id;
            }
            i = i + 1;
        }
        proof {
            lemma_greatest_article(rows, n as int);
        }
        if articles as usize > n {
            return Err(Error::Store(StoreFailure::Corrupt));
        }
        let mut counts: Vec<i32> = vec![0i32; articles as usize + 1];
        let mut i: usize = 0;
        while i < n
            invariant
                i <= n,
                n == revisions.len(),
                n <= i32::MAX,
                rows == row_views(revisions@),
                store == store_of(rows),
                store.articles == articles,
                0 <= articles <= n,
                counts.len() == articles + 1,
                forall|j: int| 0 <= j < n ==> (#[trigger] rows[j]).article_id <= articles,
                forall|a: int|
                    0 <= a <= articles ==> (#[trigger] counts[a]) == revisions_before(rows, a, i as int),
                forall|j: int|
                    0 <= j < i ==> {
                        let row = #[trigger] rows[j];
                        &&& row.sequence_number == j + 1
                        &&& 1 <= row.article_id <= articles
                        &&& row.revision == revisions_before(rows, row.article_id, j + 1)
                    },
            decreases n - i,
        {
            let row = &revisions[i];
            assert(rows[i as int] == row@);
            if row.sequence_number != i as i32 + 1 || row.article_id < 1 {
                assert(!row_well_formed(store, i as int));
                return Err(Error::Store(StoreFailure::Corrupt));
            }
            let id = row.article_id as usize;
            proof {
                lemma_count_bounded(rows, id as int, i as int);
            }
            let count: i32 = counts[id] + 1;
            if row.revision != count {
                assert(!row_well_formed(store, i as int));
                return Err(Error::Store(StoreFailure::Corrupt));
            }
            counts.set(id, count);
            i = i + 1;
        }
        let mut a: usize = 1;
        while a <= articles as usize
            invariant
                1 <= a <= articles + 1,
                counts.len() == articles + 1,
                rows == row_views(revisions@),
                store == store_of(rows),
                store.articles == articles,
                n == rows.len(),
                forall|b: int| 0 <= b <= articles ==> (#[trigger] counts[b]) == revision_count(rows, b),
                forall|b: int| 1 <= b < a ==> #[trigger] revision_count(rows, b) >= 1,
            decreases articles + 1 - a,
        {
            if counts[a] < 1 {
                assert(counts[a as int] == revision_count(rows, a as int));
                assert(!(revision_count(store.revisions, a as int) >= 1));
                return Err(Error::Store(StoreFailure::Corrupt));
            }
            a = a + 1;
        }
        let mut i: usize = 0;
        while i < n
            invariant
                i <= n,
                n == revisions.len(),
                rows == row_views(revisions@),
                store == store_of(rows),
                store.articles == articles,
                counts.len() == articles + 1,
                forall|b: int| 0 <= b <= articles ==> (#[trigger] counts[b]) == revision_count(rows, b),
                forall|j: int|
                    0 <= j < n ==> {
                        let row = #[trigger] rows[j];
                        &&& row.sequence_number == j + 1
                        &&& 1 <= row.article_id <= articles
                        &&& row.revision == revisions_before(rows, row.article_id, j + 1)
                    },
                forall|j: int| 0 <= j < i ==> #[trigger] row_well_formed(store, j),
            decreases n - i,
        {
            let row = &revisions[i];
            assert(rows[i as int] == row@);
            if row.latest != (row.revision == counts[row.article_id as usize]) {
                assert(!row_well_formed(store, i as int));
                return Err(Error::Store(StoreFailure::Corrupt));
            }
            i = i + 1;
        }
        Ok(SyncState { revisions, articles })
    }

    /// Whether every current slug resolves to its article.
    pub open spec fn resolves(&self) -> bool {
        slugs_resolve(self@.revisions)
    }

    /// The slug of the article's latest revision, or nothing if the article
    /// has no revisions.
    pub fn get_article_slug(&self, article_id: i32) -> (found: Result<Option<String>, Error>)
        ensures
            found matches Ok(slug) && option_view(slug) == article_slug(
                self@.revisions,
                article_id as int,
            ),
    {
        match self.find_current(article_id) {
            Some(k) => Ok(Some(self.revisions[k].slug.clone())),
            None => Ok(None),
        }
    }

    /// The given revision of the article, or nothing if there is none.
    pub fn get_article_revision(&self, article_id: i32, revision: i32) -> (found: Result<
        Option<ArticleRevision>,
        Error,
    >)
        ensures
            found matches Ok(row) && option_revision_view(row) == article_revision(
                self@.revisions,
                article_id as int,
                revision as int,
            ),
    {
        let mut i: usize = self.revisions.len();
        while i > 0
            invariant
                i <= self.revisions.len(),
                numbered_row(self@.revisions, article_id as int, revision as int)
                    == numbered_before(
                    self@.revisions,
                    article_id as int,
                    revision as int,
                    i as int,
                ),
            decreases i,
        {
            i = i - 1;
            let row = &self.revisions[i];
            if row.article_id == article_id && row.revision == revision {
                return Ok(Some(row.clone()));
            }
        }
        Ok(None)
    }

    /// Resolves a slug to the article that holds it now, to the slug under
    /// which the article that once held it lives now, or to nothing.
    pub fn lookup_slug(&self, slug: String) -> (found: Result<SlugLookup, Error>)
        requires
            self.wf(),
        ensures
            found matches Ok(lookup) && lookup@ == slug_lookup(self@.revisions, slug@),
    {
        let mut i: usize = self.revisions.len();
        while i > 0
            invariant
                self.wf(),
                i <= self.revisions.len(),
                last_holder(self@.revisions, slug@) == holder_before(
                    self@.revisions,
                    slug@,
                    i as int,
                ),
            decreases i,
        {
            i = i - 1;
            let row = &self.revisions[i];
            if row.slug == slug {
                if row.latest {
                    return Ok(SlugLookup::Hit { article_id: row.article_id, revision: row.revision });
                }
                proof {
                    assert(row_well_formed(self@, i as int));
                    lemma_one_latest_per_article(self@, row.article_id as int);
                }
                let current = self.find_current(row.article_id).unwrap();
                return Ok(SlugLookup::Redirect(self.revisions[current].slug.clone()));
            }
        }
        Ok(SlugLookup::Miss)
    }

    /// Lists revisions without their bodies: those that the query takes, in
    /// the order and up to the number that it asks for.
    pub fn query_article_revision_stubs(&self, query: StubQuery) -> (found: Result<
        Vec<ArticleRevisionStub>,
        Error,
    >)
        ensures
            found matches Ok(entries) && stub_views(entries@) == listing(self@.revisions, query@),
    {
        let ghost rows = self@.revisions;
        let mut positions: Vec<usize> = Vec::new();
        let mut i: usize = 0;
        assert(entries_at(rows, positions@) =~= selected(rows, query@, 0));
        while i < self.revisions.len()
            invariant
                i <= self.revisions.len(),
                rows == self@.revisions,
                forall|p: int| 0 <= p < positions.len() ==> (#[trigger] positions[p]) < rows.len(),
                entries_at(rows, positions@) == selected(rows, query@, i as int),
            decreases self.revisions.len() - i,
        {
            if query.accepts(&self.revisions[i]) {
                let ghost before = entries_at(rows, positions@);
                positions.push(i);
                assert(entries_at(rows, positions@) =~= before.push(
                    stub_of(rows[i as int]),
                ));
            }
            i = i + 1;
        }
        let ghost taken = entries_at(rows, positions@);
        let arranged = match query.order {
            StubOrder::Sequence => positions,
            StubOrder::Newest => {
                let turned = reversed(&positions);
                assert(entries_at(rows, turned@) =~= taken.reverse());
                turned
            },
            StubOrder::Title => {
                let mut keys: Vec<Vec<char>> = Vec::new();
                let mut k: usize = 0;
                while k < self.revisions.len()
                    invariant
                        k <= self.revisions.len(),
                        rows == self@.revisions,
                        keys.len() == k,
                        forall|p: int| 0 <= p < k ==> (#[trigger] keys[p])@ == rows[p].title,
                    decreases self.revisions.len() - k,
                {
                    keys.push(chars_of(self.revisions[k].title.as_str()));
                    k = k + 1;
                }
                sort_by_title(&keys, &positions, Ghost(rows))
            },
        };
        assert(entries_at(rows, arranged@) == ordered(taken, query@.order));
        let count = match query.limit {
            Some(limit) => if limit < arranged.len() {
                limit
            } else {
                arranged.len()
            },
            None => arranged.len(),
        };
        let mut entries: Vec<ArticleRevisionStub> = Vec::new();
        let mut k: usize = 0;
        while k < count
            invariant
                k <= count <= arranged.len(),
                rows == self@.revisions,
                forall|p: int| 0 <= p < arranged.len() ==> (#[trigger] arranged[p]) < rows.len(),
                stub_views(entries@) == entries_at(rows, arranged@).take(k as int),
            decreases count - k,
        {
            let ghost before = stub_views(entries@);
            let entry = self.revisions[arranged[k]].stub();
            assert(entry@ == entries_at(rows, arranged@)[k as int]);
            entries.push(entry);
            assert(stub_views(entries@) =~= before.push(entry@));
            assert(stub_views(entries@) =~= entries_at(rows, arranged@).take(k as int + 1));
            k = k + 1;
        }
        assert(entries_at(rows, arranged@).take(arranged.len() as int) =~= entries_at(
            rows,
            arranged@,
        ));
        Ok(entries)
    }

    /// Lists the latest revision of every article, by title.
    pub fn get_latest_article_revision_stubs(&self) -> (found: Result<
        Vec<ArticleRevisionStub>,
        Error,
    >)
        ensures
            found matches Ok(entries) && stub_views(entries@) == listing(
                self@.revisions,
                latest_by_title(),
            ),
    {
        self.query_article_revision_stubs(StubQuery::latest_by_title())
    }

    /// Prepares the search for what a visitor typed. The words of the query
    /// are quoted, so that none of them can act as syntax of the index.
    pub fn search_query(&self, query_string: String, limit: i32, offset: i32, snippet_size: i32) -> (prepared:
        Result<SearchQuery, Error>)
        ensures
            prepared matches Ok(search) && search@ == prepared_search(
                query_string@,
                limit as int,
                offset as int,
                snippet_size as int,
            ),
    {
        Ok(
            SearchQuery {
                match_expression: build_match_expression(query_string.as_str()),
                snippet_size,
                limit,
                offset,
            },
        )
    }

    /// Inserts the first revision of a new article and returns it.
    ///
    /// Fails, leaving the store as it was, if the title is empty or the
    /// sequence numbers are used up. The new article gets the next free
    /// identity and the slug that `decide_slug` gives it, with `target_slug`
    /// in the place of a previous slug.
    pub fn create_article(
        &mut self,
        target_slug: Option<String>,
        title: String,
        body: String,
        author: Option<String>,
        created: i64,
    ) -> (inserted: Result<ArticleRevision, Error>)
        requires
            old(self).wf(),
        ensures
            final(self).wf(),
            final(self)@ == step(
                old(self)@,
                (Step::Create {
                    target_slug: option_view(target_slug),
                    title: title@,
                    body: body@,
                    author: option_view(author),
                    created: created as int,
                }),
            ),
            match inserted {
                Ok(row) => {
                    &&& create_error(old(self)@, title@) is None
                    &&& row@ == created_row(
                        old(self)@,
                        option_view(target_slug),
                        title@,
                        body@,
                        option_view(author),
                        created as int,
                    )
                    &&& final(self)@ == after_create(old(self)@, row@)
                    &&& final(self).resolves() <==> old(self).resolves() && !slug_in_use(
                        old(self)@.revisions,
                        row@.article_id,
                        row@.slug,
                    )
                },
                Err(e) => create_error(old(self)@, title@) == Some(e) && final(self)@ == old(self)@,
            },
    {
        if title.as_str().is_empty() {
            return Err(Error::Validation);
        }
        if self.revisions.len() >= i32::MAX as usize {
            return Err(Error::Store(StoreFailure::Exhausted));
        }
        let article_id: i32 = self.articles + 1;
        let prev_slug: Option<&str> = match &target_slug {
            Some(s) => Some(s.as_str()),
            None => None,
        };
        let slug = match decide_slug(self, article_id, "", title.as_str(), prev_slug) {
            Ok(slug) => slug,
            Err(e) => {
                return Err(e);
            },
        };
        proof {
            reveal_strlit("");
            assert(""@ =~= Seq::<char>::empty());
        }
        let row = ArticleRevision {
            sequence_number: self.revisions.len() as i32 + 1,
            article_id,
            revision: 1,
            created,
            slug,
            title,
            body,
            latest: true,
            author,
        };
        let copy = row.clone();
        proof {
            lemma_create_well_formed(self@, row@);
            lemma_create_resolves(self@, row@);
        }
        self.articles = article_id;
        self.revisions.push(row);
        proof {
            assert(final(self)@.revisions =~= old(self)@.revisions.push(copy@));
        }
        Ok(copy)
    }

    /// Inserts a further revision of an article and returns it.
    ///
    /// Fails, leaving the store as it was, if the title is empty, if the
    /// article has no revisions, if `base_revision` is not the number of its
    /// latest revision, or if the sequence numbers are used up. An edit that
    /// is based on a superseded revision is never merged: the caller gets
    /// the number of the latest revision and may try again.
    pub fn update_article(
        &mut self,
        article_id: i32,
        base_revision: i32,
        title: String,
        body: String,
        author: Option<String>,
        created: i64,
    ) -> (inserted: Result<ArticleRevision, Error>)
        requires
            old(self).wf(),
        ensures
            final(self).wf(),
            final(self)@ == step(
                old(self)@,
                (Step::Update {
                    article_id: article_id as int,
                    base_revision: base_revision as int,
                    title: title@,
                    body: body@,
                    author: option_view(author),
                    created: created as int,
                }),
            ),
            match inserted {
                Ok(row) => {
                    &&& update_error(
                        old(self)@,
                        article_id as int,
                        base_revision as int,
                        title@,
                    ) is None
                    &&& row@ == updated_row(
                        old(self)@,
                        article_id as int,
                        title@,
                        body@,
                        option_view(author),
                        created as int,
                    )
                    &&& final(self)@ == after_update(old(self)@, row@)
                    &&& old(self).resolves() ==> final(self).resolves()
                },
                Err(e) => update_error(
                    old(self)@,
                    article_id as int,
                    base_revision as int,
                    title@,
                ) == Some(e) && final(self)@ == old(self)@,
            },
    {
        if title.as_str().is_empty() {
            return Err(Error::Validation);
        }
        let k = match self.find_current(article_id) {
            Some(k) => k,
            None => {
                return Err(Error::Store(StoreFailure::NoSuchArticle));
            },
        };
        let latest_revision = self.revisions[k].revision;
        if latest_revision != base_revision {
            return Err(Error::Conflict { latest_revision });
        }
        if self.revisions.len() >= i32::MAX as usize {
            return Err(Error::Store(StoreFailure::Exhausted));
        }
        proof {
            lemma_current_before(self@.revisions, article_id as int, self@.revisions.len() as int);
            assert(row_well_formed(self@, k as int));
            lemma_one_latest_per_article(self@, article_id as int);
            lemma_count_bounded(self@.revisions, article_id as int, self@.revisions.len() as int);
        }
        let slug = match decide_slug(
            self,
            article_id,
            self.revisions[k].title.as_str(),
            title.as_str(),
            Some(self.revisions[k].slug.as_str()),
        ) {
            Ok(slug) => slug,
            Err(e) => {
                return Err(e);
            },
        };
        let row = ArticleRevision {
            sequence_number: self.revisions.len() as i32 + 1,
            article_id,
            revision: base_revision + 1,
            created,
            slug,
            title,
            body,
            latest: true,
            author,
        };
        let copy = row.clone();
        proof {
            lemma_update_well_formed(self@, row@);
            lemma_decided_slug(
                self@.revisions,
                article_id as int,
                self@.revisions[k as int].title,
                row@.title,
                Some(self@.revisions[k as int].slug),
            );
            if self.resolves() {
                lemma_update_resolves(self@, row@);
            }
        }
        self.revisions[k].latest = false;
        self.revisions.push(row);
        proof {
            assert(final(self)@.revisions =~= after_update(old(self)@, copy@).revisions);
        }
        Ok(copy)
    }

    /// The index of the latest revision of the article, if it has one.
    fn find_current(&self, article_id: i32) -> (found: Option<usize>)
        ensures
            match found {
                Some(k) => k < self.revisions.len() && k as int == current_row(
                    self@.revisions,
                    article_id as int,
                ),
                None => current_row(self@.revisions, article_id as int) == -1,
            },
    {
        let mut i: usize = self.revisions.len();
        while i > 0
            invariant
                i <= self.revisions.len(),
                current_row(self@.revisions, article_id as int) == current_before(
                    self@.revisions,
                    article_id as int,
                    i as int,
                ),
            decreases i,
        {
            i = i - 1;
            if self.revisions[i].article_id == article_id && self.revisions[i].latest {
                return Some(i);
            }
        }
        None
    }

    /// Whether the latest revision of an article other than `article_id`
    /// holds the slug.
    fn slug_taken(&self, article_id: i32, slug: &String) -> (taken: bool)
        ensures
            taken == slug_in_use(self@.revisions, article_id as int, slug@),
    {
        let mut i: usize = 0;
        while i < self.revisions.len()
            invariant
                i <= self.revisions.len(),
                forall|j: int|
                    0 <= j < i ==> !occupies(self@.revisions, article_id as int, slug@, j),
            decreases self.revisions.len() - i,
        {
            let row = &self.revisions[i];
            if row.latest && row.article_id != article_id && row.slug == *slug {
                assert(occupies(self@.revisions, article_id as int, slug@, i as int));
                return true;
            }
            i = i + 1;
        }
        false
    }
}

/// Decides the slug for an article that gets the title `title`.
///
/// `prev_title` and `prev_slug` are the title and the slug of the article's
/// latest revision; a new article has the empty title and the slug that its
/// creator asks for, if any. Only the front page, whose slug is empty, gets
/// the empty slug.
pub fn decide_slug(
    state: &SyncState,
    article_id: i32,
    prev_title: &str,
    title: &str,
    prev_slug: Option<&str>,
) -> (decided: Result<String, Error>)
    requires
        state.wf(),
    ensures
        decided matches Ok(slug) && slug@ == decided_slug(
            state@.revisions,
            article_id as int,
            prev_title@,
            title@,
            option_str_view(prev_slug),
        ),
        decided matches Ok(slug) && (slug@.len() == 0 <==> option_str_view(prev_slug) == Some(
            Seq::<char>::empty(),
        )),
{
    proof {
        lemma_decided_slug(
            state@.revisions,
            article_id as int,
            prev_title@,
            title@,
            option_str_view(prev_slug),
        );
    }
    let derived = slugify(title);
    match prev_slug {
        Some(prev) => {
            if prev.is_empty() {
                return Ok(String::new());
            }
            let prev_owned = prev.to_owned();
            if title.to_owned() == prev_title.to_owned() {
                return Ok(prev_owned);
            }
            if derived == prev_owned {
                return Ok(derived);
            }
        },
        None => {},
    }
    let base = if derived.as_str().is_empty() {
        "article".to_owned()
    } else {
        derived
    };
    proof {
        reveal_strlit("article");
        assert(base@ =~= base_slug(slugified(title@)));
    }
    let ghost rows = state@.revisions;
    let ghost goal = decided_slug(
        rows,
        article_id as int,
        prev_title@,
        title@,
        option_str_view(prev_slug),
    );
    assert(goal == disambiguated(rows, article_id as int, base@));
    let mut n: u32 = 1;
    let mut slug = make_candidate(base.as_str(), n);
    loop
        invariant
            state.wf(),
            rows == state@.revisions,
            goal == disambiguated(rows, article_id as int, base@),
            goal == decided_slug(
                rows,
                article_id as int,
                prev_title@,
                title@,
                option_str_view(prev_slug),
            ),
            goal.len() == 0 <==> option_str_view(prev_slug) == Some(Seq::<char>::empty()),
            1 <= n <= rows.len() + 1,
            slug@ == candidate(base@, n as nat),
            forall|m: nat|
                1 <= m < n ==> slug_in_use(rows, article_id as int, #[trigger] candidate(base@, m)),
        decreases rows.len() + 1 - n,
    {
        if !state.slug_taken(article_id, &slug) {
            proof {
                lemma_first_free_unique(rows, article_id as int, base@, n as nat);
            }
            return Ok(slug);
        }
        proof {
            lemma_taken_candidates_bounded(rows, article_id as int, base@, (n + 1) as nat);
        }
        n = n + 1;
        slug = make_candidate(base.as_str(), n);
    }
}

} // verus!
