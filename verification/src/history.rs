//! The mathematical model of the revision table: what it means for the
//! table to be well formed, and the queries that the store answers.

use crate::models::{Error, RevisionView, SlugLookupView, StoreFailure};
use crate::slugs::decided_slug;
use vstd::prelude::*;

verus! {

/// The content of the store: the revisions in the order of their insertion,
/// and the number of article identities handed out so far.
pub struct TableView {
    pub revisions: Seq<RevisionView>,
    pub articles: int,
}

/// How many of the first `n` rows belong to the article.
pub open spec fn revisions_before(rows: Seq<RevisionView>, article_id: int, n: int) -> nat
    decreases n,
{
    if n <= 0 {
        0
    } else {
        revisions_before(rows, article_id, n - 1) + if rows[n - 1].article_id == article_id {
            1nat
        } else {
            0nat
        }
    }
}

/// How many revisions the article has.
pub open spec fn revision_count(rows: Seq<RevisionView>, article_id: int) -> nat {
    revisions_before(rows, article_id, rows.len() as int)
}

/// Row `i` carries its position in the table, belongs to a known article,
/// is numbered by its position among the rows of that article, and is
/// flagged as latest exactly if no newer revision of the article exists.
pub open spec fn row_well_formed(store: TableView, i: int) -> bool {
    let row = store.revisions[i];
    &&& row.sequence_number == i + 1
    &&& 1 <= row.article_id <= store.articles
    &&& row.revision == revisions_before(store.revisions, row.article_id, i + 1)
    &&& row.latest == (row.revision == revision_count(store.revisions, row.article_id))
}

/// The invariant of the store.
pub open spec fn well_formed(store: TableView) -> bool {
    &&& store.revisions.len() <= i32::MAX
    &&& 0 <= store.articles <= store.revisions.len()
    &&& forall|i: int| 0 <= i < store.revisions.len() ==> #[trigger] row_well_formed(store, i)
    &&& forall|a: int| 1 <= a <= store.articles ==> #[trigger] revision_count(store.revisions, a) >= 1
}

/// The index of the last row among the first `n` that is the latest
/// revision of the article, or -1 if there is none.
pub open spec fn current_before(rows: Seq<RevisionView>, article_id: int, n: int) -> int
    decreases n,
{
    if n <= 0 {
        -1
    } else if rows[n - 1].article_id == article_id && rows[n - 1].latest {
        n - 1
    } else {
        current_before(rows, article_id, n - 1)
    }
}

/// The index of the article's latest revision, or -1 if it has none.
pub open spec fn current_row(rows: Seq<RevisionView>, article_id: int) -> int {
    current_before(rows, article_id, rows.len() as int)
}

/// What `get_article_slug` returns: the slug of the article's latest
/// revision.
pub open spec fn article_slug(rows: Seq<RevisionView>, article_id: int) -> Option<Seq<char>> {
    let k = current_row(rows, article_id);
    if k < 0 {
        None
    } else {
        Some(rows[k].slug)
    }
}

/// The index of the last row among the first `n` that is the given
/// revision of the article, or -1 if there is none.
pub open spec fn numbered_before(
    rows: Seq<RevisionView>,
    article_id: int,
    revision: int,
    n: int,
) -> int
    decreases n,
{
    if n <= 0 {
        -1
    } else if rows[n - 1].article_id == article_id && rows[n - 1].revision == revision {
        n - 1
    } else {
        numbered_before(rows, article_id, revision, n - 1)
    }
}

/// The index of the given revision of the article, or -1 if there is none.
pub open spec fn numbered_row(rows: Seq<RevisionView>, article_id: int, revision: int) -> int {
    numbered_before(rows, article_id, revision, rows.len() as int)
}

/// What `get_article_revision` returns: the given revision of the article.
pub open spec fn article_revision(
    rows: Seq<RevisionView>,
    article_id: int,
    revision: int,
) -> Option<RevisionView> {
    let k = numbered_row(rows, article_id, revision);
    if k < 0 {
        None
    } else {
        Some(rows[k])
    }
}

/// The index of the last row among the first `n` that holds the slug, or -1
/// if there is none.
pub open spec fn holder_before(rows: Seq<RevisionView>, slug: Seq<char>, n: int) -> int
    decreases n,
{
    if n <= 0 {
        -1
    } else if rows[n - 1].slug == slug {
        n - 1
    } else {
        holder_before(rows, slug, n - 1)
    }
}

/// The index of the row with the greatest sequence number that holds the
/// slug, or -1 if no revision ever held it.
pub open spec fn last_holder(rows: Seq<RevisionView>, slug: Seq<char>) -> int {
    holder_before(rows, slug, rows.len() as int)
}

/// What `lookup_slug` returns. The row that decides is the last one that
/// holds the slug. If it is the latest revision of its article, the slug
/// leads there; if not, it leads to the slug under which that article now
/// lives.
pub open spec fn slug_lookup(rows: Seq<RevisionView>, slug: Seq<char>) -> SlugLookupView {
    let i = last_holder(rows, slug);
    if i < 0 {
        SlugLookupView::Miss
    } else if rows[i].latest {
        SlugLookupView::Hit { article_id: rows[i].article_id, revision: rows[i].revision }
    } else {
        SlugLookupView::Redirect(rows[current_row(rows, rows[i].article_id)].slug)
    }
}

/// Row `i` is the latest revision of an article other than `article_id` and
/// holds the slug.
pub open spec fn occupies(rows: Seq<RevisionView>, article_id: int, slug: Seq<char>, i: int) -> bool {
    &&& 0 <= i < rows.len()
    &&& rows[i].latest
    &&& rows[i].article_id != article_id
    &&& rows[i].slug == slug
}

/// The latest revision of some other article holds the slug.
pub open spec fn slug_in_use(rows: Seq<RevisionView>, article_id: int, slug: Seq<char>) -> bool {
    exists|i: int| occupies(rows, article_id, slug, i)
}

/// No two latest revisions hold the same slug.
pub open spec fn slugs_unique(rows: Seq<RevisionView>) -> bool {
    forall|i: int, j: int|
        0 <= i < j < rows.len() && (#[trigger] rows[i]).latest && (#[trigger] rows[j]).latest
            ==> rows[i].slug != rows[j].slug
}

/// Every latest revision is the last row that holds its slug, so that the
/// current slug of every article resolves to that article.
pub open spec fn slugs_resolve(rows: Seq<RevisionView>) -> bool {
    forall|i: int|
        0 <= i < rows.len() && (#[trigger] rows[i]).latest ==> last_holder(rows, rows[i].slug) == i
}

/// A revision with its `latest` flag taken away.
pub open spec fn superseded(row: RevisionView) -> RevisionView {
    RevisionView { latest: false, ..row }
}

/// The store after the first revision of a new article is inserted.
pub open spec fn after_create(store: TableView, row: RevisionView) -> TableView {
    TableView { revisions: store.revisions.push(row), articles: store.articles + 1 }
}

/// The store after a further revision of an article is inserted: the
/// revision that was the latest one is no longer flagged, and the new one
/// follows at the end.
pub open spec fn after_update(store: TableView, row: RevisionView) -> TableView {
    let k = current_row(store.revisions, row.article_id);
    TableView {
        revisions: store.revisions.update(k, superseded(store.revisions[k])).push(row),
        articles: store.articles,
    }
}

/// Why `create_article` fails on the given input, if it does.
pub open spec fn create_error(store: TableView, title: Seq<char>) -> Option<Error> {
    if title.len() == 0 {
        Some(Error::Validation)
    } else if store.revisions.len() >= i32::MAX {
        Some(Error::Store(StoreFailure::Exhausted))
    } else {
        None
    }
}

/// The revision that `create_article` inserts.
pub open spec fn created_row(
    store: TableView,
    target_slug: Option<Seq<char>>,
    title: Seq<char>,
    body: Seq<char>,
    author: Option<Seq<char>>,
    created: int,
) -> RevisionView {
    RevisionView {
        sequence_number: store.revisions.len() as int + 1,
        article_id: store.articles + 1,
        revision: 1,
        created,
        slug: decided_slug(
            store.revisions,
            store.articles + 1,
            Seq::empty(),
            title,
            target_slug,
        ),
        title,
        body,
        latest: true,
        author,
    }
}

/// Why `update_article` fails on the given input, if it does.
pub open spec fn update_error(
    store: TableView,
    article_id: int,
    base_revision: int,
    title: Seq<char>,
) -> Option<Error> {
    let k = current_row(store.revisions, article_id);
    if title.len() == 0 {
        Some(Error::Validation)
    } else if k < 0 {
        Some(Error::Store(StoreFailure::NoSuchArticle))
    } else if store.revisions[k].revision != base_revision {
        Some(Error::Conflict { latest_revision: store.revisions[k].revision as i32 })
    } else if store.revisions.len() >= i32::MAX {
        Some(Error::Store(StoreFailure::Exhausted))
    } else {
        None
    }
}

/// The revision that `update_article` inserts.
pub open spec fn updated_row(
    store: TableView,
    article_id: int,
    title: Seq<char>,
    body: Seq<char>,
    author: Option<Seq<char>>,
    created: int,
) -> RevisionView {
    let prev = store.revisions[current_row(store.revisions, article_id)];
    RevisionView {
        sequence_number: store.revisions.len() as int + 1,
        article_id,
        revision: prev.revision + 1,
        created,
        slug: decided_slug(store.revisions, article_id, prev.title, title, Some(prev.slug)),
        title,
        body,
        latest: true,
        author,
    }
}

/// The greatest article identity among the first `n` rows, or 0 if there is
/// none above that.
pub open spec fn greatest_article(rows: Seq<RevisionView>, n: int) -> int
    decreases n,
{
    if n <= 0 {
        0
    } else if rows[n - 1].article_id > greatest_article(rows, n - 1) {
        rows[n - 1].article_id
    } else {
        greatest_article(rows, n - 1)
    }
}

/// The store that consists of the given rows, if they form one: the number
/// of its articles is then the greatest identity among them.
pub open spec fn store_of(rows: Seq<RevisionView>) -> TableView {
    TableView { revisions: rows, articles: greatest_article(rows, rows.len() as int) }
}

/// Tables that agree on the owners of their first `n` rows agree on the
/// counts over those rows.
pub proof fn lemma_count_agree(a: Seq<RevisionView>, b: Seq<RevisionView>, article_id: int, n: int)
    requires
        forall|i: int| 0 <= i < n ==> (#[trigger] a[i]).article_id == (#[trigger] b[i]).article_id,
    ensures
        revisions_before(a, article_id, n) == revisions_before(b, article_id, n),
    decreases n,
{
    if n > 0 {
        lemma_count_agree(a, b, article_id, n - 1);
        assert(a[n - 1].article_id == b[n - 1].article_id);
    }
}

/// No more rows belong to an article than there are rows.
pub proof fn lemma_count_bounded(rows: Seq<RevisionView>, article_id: int, n: int)
    requires
        0 <= n,
    ensures
        revisions_before(rows, article_id, n) <= n,
    decreases n,
{
    if n > 0 {
        lemma_count_bounded(rows, article_id, n - 1);
    }
}

/// The count grows with the number of rows considered, and strictly so
/// across a row of the article.
pub proof fn lemma_count_monotone(rows: Seq<RevisionView>, article_id: int, i: int, j: int)
    requires
        i <= j,
    ensures
        revisions_before(rows, article_id, i) <= revisions_before(rows, article_id, j),
        0 <= i < j && rows[i].article_id == article_id ==> revisions_before(rows, article_id, i + 1)
            <= revisions_before(rows, article_id, j),
    decreases j - i,
{
    if i < j {
        lemma_count_monotone(rows, article_id, i, j - 1);
        if i + 1 <= j - 1 {
            lemma_count_monotone(rows, article_id, i + 1, j - 1);
        }
    }
}

/// The count is zero exactly if none of the rows belongs to the article.
pub proof fn lemma_count_zero(rows: Seq<RevisionView>, article_id: int, n: int)
    ensures
        revisions_before(rows, article_id, n) == 0 <==> forall|i: int|
            0 <= i < n ==> (#[trigger] rows[i]).article_id != article_id,
    decreases n,
{
    if n > 0 {
        lemma_count_zero(rows, article_id, n - 1);
        if revisions_before(rows, article_id, n) == 0 {
            assert forall|i: int| 0 <= i < n implies (#[trigger] rows[i]).article_id
                != article_id by {}
        } else if rows[n - 1].article_id != article_id {
            let w = choose|i: int| 0 <= i < n - 1 && (#[trigger] rows[i]).article_id == article_id;
            assert(rows[w].article_id == article_id);
        }
    }
}

/// An article with a revision among the first `n` rows has a last one, and
/// the count up to and including it is the count over all `n`.
pub proof fn lemma_last_revision(rows: Seq<RevisionView>, article_id: int, n: int) -> (k: int)
    requires
        revisions_before(rows, article_id, n) >= 1,
    ensures
        0 <= k < n,
        rows[k].article_id == article_id,
        revisions_before(rows, article_id, k + 1) == revisions_before(rows, article_id, n),
    decreases n,
{
    if rows[n - 1].article_id == article_id {
        n - 1
    } else {
        lemma_last_revision(rows, article_id, n - 1)
    }
}

/// A count that the first `n` rows reach is reached at one of them.
proof fn lemma_revision_reached(rows: Seq<RevisionView>, article_id: int, revision: int, n: int) -> (k:
    int)
    requires
        1 <= revision <= revisions_before(rows, article_id, n),
    ensures
        0 <= k < n,
        rows[k].article_id == article_id,
        revisions_before(rows, article_id, k + 1) == revision,
    decreases n,
{
    if rows[n - 1].article_id == article_id && revisions_before(rows, article_id, n) == revision {
        n - 1
    } else {
        lemma_revision_reached(rows, article_id, revision, n - 1)
    }
}

/// What `current_before` finds is a latest row of the article, and no later
/// row among the first `n` is one.
pub proof fn lemma_current_before(rows: Seq<RevisionView>, article_id: int, n: int)
    ensures
        -1 <= current_before(rows, article_id, n) < n || (n < 0 && current_before(
            rows,
            article_id,
            n,
        ) == -1),
        current_before(rows, article_id, n) >= 0 ==> {
            let k = current_before(rows, article_id, n);
            rows[k].article_id == article_id && rows[k].latest
        },
        forall|i: int|
            current_before(rows, article_id, n) < i < n ==> !((#[trigger] rows[i]).article_id
                == article_id && rows[i].latest),
    decreases n,
{
    if n > 0 {
        lemma_current_before(rows, article_id, n - 1);
    }
}

/// What `holder_before` finds holds the slug, and no later row among the
/// first `n` does.
pub proof fn lemma_holder_before(rows: Seq<RevisionView>, slug: Seq<char>, n: int)
    ensures
        -1 <= holder_before(rows, slug, n) < n || (n < 0 && holder_before(rows, slug, n) == -1),
        holder_before(rows, slug, n) >= 0 ==> rows[holder_before(rows, slug, n)].slug == slug,
        forall|i: int| holder_before(rows, slug, n) < i < n ==> (#[trigger] rows[i]).slug != slug,
    decreases n,
{
    if n > 0 {
        lemma_holder_before(rows, slug, n - 1);
    }
}

/// Tables that agree on the slugs of their first `n` rows agree on the last
/// holder of a slug among those rows.
pub proof fn lemma_holder_agree(a: Seq<RevisionView>, b: Seq<RevisionView>, slug: Seq<char>, n: int)
    requires
        forall|i: int| 0 <= i < n ==> (#[trigger] a[i]).slug == (#[trigger] b[i]).slug,
    ensures
        holder_before(a, slug, n) == holder_before(b, slug, n),
    decreases n,
{
    if n > 0 {
        lemma_holder_agree(a, b, slug, n - 1);
        assert(a[n - 1].slug == b[n - 1].slug);
    }
}

/// What `numbered_before` finds is the given revision of the article, and
/// no later row among the first `n` is.
pub proof fn lemma_numbered_before(
    rows: Seq<RevisionView>,
    article_id: int,
    revision: int,
    n: int,
)
    ensures
        -1 <= numbered_before(rows, article_id, revision, n),
        numbered_before(rows, article_id, revision, n) < n || n < 0,
        numbered_before(rows, article_id, revision, n) >= 0 ==> {
            let k = numbered_before(rows, article_id, revision, n);
            rows[k].article_id == article_id && rows[k].revision == revision
        },
        forall|i: int|
            numbered_before(rows, article_id, revision, n) < i < n ==> !((
            #[trigger] rows[i]).article_id == article_id && rows[i].revision == revision),
    decreases n,
{
    if n > 0 {
        lemma_numbered_before(rows, article_id, revision, n - 1);
    }
}

/// In a well-formed table the latest revision of an article is the only row
/// of the article that is flagged as latest, and its number is the number
/// of revisions that the article has.
pub proof fn lemma_one_latest_per_article(store: TableView, article_id: int)
    requires
        well_formed(store),
        1 <= article_id <= store.articles,
    ensures
        0 <= current_row(store.revisions, article_id) < store.revisions.len(),
        store.revisions[current_row(store.revisions, article_id)].article_id == article_id,
        store.revisions[current_row(store.revisions, article_id)].latest,
        store.revisions[current_row(store.revisions, article_id)].revision == revision_count(
            store.revisions,
            article_id,
        ),
        forall|i: int|
            0 <= i < store.revisions.len() && (#[trigger] store.revisions[i]).article_id
                == article_id && store.revisions[i].latest ==> i == current_row(
                store.revisions,
                article_id,
            ),
{
    let rows = store.revisions;
    let n = rows.len() as int;
    assert(revision_count(rows, article_id) >= 1);
    let last = lemma_last_revision(rows, article_id, n);
    assert(row_well_formed(store, last));
    lemma_current_before(rows, article_id, n);
    let k = current_row(rows, article_id);
    assert(k >= last);
    assert(row_well_formed(store, k));
    assert forall|i: int|
        0 <= i < n && (#[trigger] rows[i]).article_id == article_id && rows[i].latest implies i
        == k by {
        assert(row_well_formed(store, i));
        if i < k {
            lemma_count_monotone(rows, article_id, i, k);
        }
    }
}

/// In a well-formed table no two rows are the same revision of the same
/// article.
pub proof fn lemma_revisions_distinct(store: TableView, i: int, j: int)
    requires
        well_formed(store),
        0 <= i < store.revisions.len(),
        0 <= j < store.revisions.len(),
        store.revisions[i].article_id == store.revisions[j].article_id,
        store.revisions[i].revision == store.revisions[j].revision,
    ensures
        i == j,
{
    let rows = store.revisions;
    assert(row_well_formed(store, i));
    assert(row_well_formed(store, j));
    if i < j {
        lemma_count_monotone(rows, rows[i].article_id, i, j);
    } else if j < i {
        lemma_count_monotone(rows, rows[i].article_id, j, i);
    }
}

/// In a well-formed table the revisions of an article are numbered from 1
/// to their count without a gap: every number in that range is the number
/// of exactly one row of the article, and the rows of the article have no
/// other numbers.
pub proof fn lemma_revisions_contiguous(store: TableView, article_id: int, revision: int)
    requires
        well_formed(store),
    ensures
        1 <= revision <= revision_count(store.revisions, article_id) <==> numbered_row(
            store.revisions,
            article_id,
            revision,
        ) >= 0,
{
    let rows = store.revisions;
    let n = rows.len() as int;
    lemma_numbered_before(rows, article_id, revision, n);
    if 1 <= revision <= revision_count(rows, article_id) {
        let k = lemma_revision_reached(rows, article_id, revision, n);
        assert(row_well_formed(store, k));
    }
    let found = numbered_row(rows, article_id, revision);
    if found >= 0 {
        assert(row_well_formed(store, found));
        lemma_count_monotone(rows, article_id, found, n);
    }
}

/// If every current slug resolves to its article, no two articles share
/// their current slug.
pub proof fn lemma_resolve_unique(rows: Seq<RevisionView>)
    requires
        slugs_resolve(rows),
    ensures
        slugs_unique(rows),
{
}

/// Inserting the first revision of a new article keeps the table well
/// formed.
pub proof fn lemma_create_well_formed(store: TableView, row: RevisionView)
    requires
        well_formed(store),
        store.revisions.len() < i32::MAX,
        row.sequence_number == store.revisions.len() + 1,
        row.article_id == store.articles + 1,
        row.revision == 1,
        row.latest,
    ensures
        well_formed(after_create(store, row)),
{
    let rows = store.revisions;
    let n = rows.len() as int;
    let next = after_create(store, row);
    assert forall|i: int| 0 <= i < n implies (#[trigger] rows[i]).article_id != row.article_id by {
        assert(row_well_formed(store, i));
    }
    lemma_count_zero(rows, row.article_id, n);
    lemma_count_agree(rows, next.revisions, row.article_id, n);
    assert forall|i: int| 0 <= i < next.revisions.len() implies #[trigger] row_well_formed(
        next,
        i,
    ) by {
        if i < n {
            assert(row_well_formed(store, i));
            lemma_count_agree(rows, next.revisions, rows[i].article_id, i + 1);
            lemma_count_agree(rows, next.revisions, rows[i].article_id, n);
        }
    }
    assert forall|a: int| 1 <= a <= next.articles implies #[trigger] revision_count(
        next.revisions,
        a,
    ) >= 1 by {
        lemma_count_agree(rows, next.revisions, a, n);
        if a <= store.articles {
            assert(revision_count(rows, a) >= 1);
        }
    }
}

/// Inserting a further revision of an article, numbered after its latest
/// one, keeps the table well formed.
pub proof fn lemma_update_well_formed(store: TableView, row: RevisionView)
    requires
        well_formed(store),
        store.revisions.len() < i32::MAX,
        current_row(store.revisions, row.article_id) >= 0,
        row.sequence_number == store.revisions.len() + 1,
        row.revision == store.revisions[current_row(store.revisions, row.article_id)].revision + 1,
        row.latest,
    ensures
        well_formed(after_update(store, row)),
{
    let rows = store.revisions;
    let n = rows.len() as int;
    let k = current_row(rows, row.article_id);
    let next = after_update(store, row);
    lemma_current_before(rows, row.article_id, n);
    assert(row_well_formed(store, k));
    lemma_one_latest_per_article(store, row.article_id);
    assert forall|i: int| 0 <= i < next.revisions.len() implies #[trigger] row_well_formed(
        next,
        i,
    ) by {
        if i < n {
            assert(row_well_formed(store, i));
            lemma_count_agree(rows, next.revisions, rows[i].article_id, i + 1);
            lemma_count_agree(rows, next.revisions, rows[i].article_id, n);
            lemma_count_monotone(rows, rows[i].article_id, i + 1, n);
        } else {
            lemma_count_agree(rows, next.revisions, row.article_id, n);
        }
    }
    assert forall|a: int| 1 <= a <= next.articles implies #[trigger] revision_count(
        next.revisions,
        a,
    ) >= 1 by {
        lemma_count_agree(rows, next.revisions, a, n);
        assert(revision_count(rows, a) >= 1);
    }
}

/// After the first revision of a new article is inserted, every current
/// slug resolves to its article exactly if that was so before and the
/// latest revision of no other article holds the new slug.
pub proof fn lemma_create_resolves(store: TableView, row: RevisionView)
    requires
        well_formed(store),
        row.article_id == store.articles + 1,
        row.latest,
    ensures
        slugs_resolve(after_create(store, row).revisions) <==> slugs_resolve(store.revisions)
            && !slug_in_use(store.revisions, row.article_id, row.slug),
{
    let rows = store.revisions;
    let n = rows.len() as int;
    let next = after_create(store, row).revisions;
    assert forall|s: Seq<char>| #[trigger]
        last_holder(next, s) == if row.slug == s {
            n
        } else {
            last_holder(rows, s)
        } by {
        lemma_holder_agree(rows, next, s, n);
    }
    if slugs_resolve(rows) && !slug_in_use(rows, row.article_id, row.slug) {
        assert forall|i: int| 0 <= i < next.len() && (#[trigger] next[i]).latest implies last_holder(
            next,
            next[i].slug,
        ) == i by {
            if i < n {
                assert(rows[i].latest);
                assert(row_well_formed(store, i));
                assert(!occupies(rows, row.article_id, row.slug, i));
            }
        }
    }
    if slugs_resolve(next) {
        assert forall|i: int| 0 <= i < n && (#[trigger] rows[i]).latest implies last_holder(
            rows,
            rows[i].slug,
        ) == i by {
            assert(next[i].latest);
        }
        if slug_in_use(rows, row.article_id, row.slug) {
            let i = choose|i: int| occupies(rows, row.article_id, row.slug, i);
            assert(next[i].latest);
        }
    }
}

/// After a further revision of an article is inserted under the slug that
/// the article had, or under one that the latest revision of no other
/// article holds, every current slug still resolves to its article.
pub proof fn lemma_update_resolves(store: TableView, row: RevisionView)
    requires
        well_formed(store),
        slugs_resolve(store.revisions),
        current_row(store.revisions, row.article_id) >= 0,
        row.latest,
        row.slug == store.revisions[current_row(store.revisions, row.article_id)].slug
            || !slug_in_use(store.revisions, row.article_id, row.slug),
    ensures
        slugs_resolve(after_update(store, row).revisions),
{
    let rows = store.revisions;
    let n = rows.len() as int;
    let k = current_row(rows, row.article_id);
    let next = after_update(store, row).revisions;
    lemma_current_before(rows, row.article_id, n);
    assert(row_well_formed(store, k));
    lemma_one_latest_per_article(store, row.article_id);
    assert forall|i: int| 0 <= i < next.len() && (#[trigger] next[i]).latest implies last_holder(
        next,
        next[i].slug,
    ) == i by {
        if i < n {
            assert(rows[i].latest);
            assert(rows[k].latest);
            lemma_holder_agree(rows, next, rows[i].slug, n);
            assert(!occupies(rows, row.article_id, row.slug, i) || rows[i].slug != row.slug);
        }
    }
}

/// The greatest identity is at least every identity and not negative, and
/// if it is not 0, it is the identity of a row.
pub proof fn lemma_greatest_article(rows: Seq<RevisionView>, n: int)
    ensures
        greatest_article(rows, n) >= 0,
        forall|i: int| 0 <= i < n ==> (#[trigger] rows[i]).article_id <= greatest_article(rows, n),
        greatest_article(rows, n) > 0 ==> exists|i: int|
            0 <= i < n && (#[trigger] rows[i]).article_id == greatest_article(rows, n),
    decreases n,
{
    if n > 0 {
        lemma_greatest_article(rows, n - 1);
        if rows[n - 1].article_id > greatest_article(rows, n - 1) {
            assert(rows[n - 1].article_id == greatest_article(rows, n));
        } else if greatest_article(rows, n) > 0 {
            let w = choose|i: int|
                0 <= i < n - 1 && (#[trigger] rows[i]).article_id == greatest_article(rows, n - 1);
            assert(rows[w].article_id == greatest_article(rows, n));
        }
    }
}

/// A well-formed store has as many articles as the greatest identity among
/// its rows says, so rows form at most one store.
pub proof fn lemma_store_of(store: TableView)
    requires
        well_formed(store),
    ensures
        store == store_of(store.revisions),
{
    let rows = store.revisions;
    let n = rows.len() as int;
    lemma_greatest_article(rows, n);
    assert forall|i: int| 0 <= i < n implies (#[trigger] rows[i]).article_id <= store.articles by {
        assert(row_well_formed(store, i));
    }
    if greatest_article(rows, n) < store.articles {
        assert(revision_count(rows, store.articles) >= 1);
        lemma_count_zero(rows, store.articles, n);
    }
    if greatest_article(rows, n) > store.articles {
        let w = choose|i: int|
            0 <= i < n && (#[trigger] rows[i]).article_id == greatest_article(rows, n);
        assert(row_well_formed(store, w));
    }
}

} // verus!
