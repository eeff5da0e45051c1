//! What holds of the store after any history of insertions, and of the
//! dispatcher on any path.

use crate::history::{
    after_create, after_update, create_error, created_row, current_before, current_row,
    holder_before, last_holder, lemma_create_resolves, lemma_create_well_formed,
    lemma_count_monotone, lemma_current_before, lemma_holder_agree, lemma_holder_before,
    lemma_one_latest_per_article,
    lemma_update_resolves, lemma_update_well_formed, revision_count, row_well_formed,
    lemma_resolve_unique, occupies, slug_in_use, slug_lookup, slugs_resolve, slugs_unique,
    update_error, updated_row, well_formed, TableView,
};
use crate::models::{Error, RevisionView, SlugLookupView};
use crate::paths::split_path;
use crate::slugs::{lemma_decided_slug, slugified};
use crate::wiki_lookup::{article_resource, ResourceView};
use vstd::prelude::*;

verus! {

/// One call of `create_article` or `update_article`, by its arguments.
pub enum Step {
    Create {
        target_slug: Option<Seq<char>>,
        title: Seq<char>,
        body: Seq<char>,
        author: Option<Seq<char>>,
        created: int,
    },
    Update {
        article_id: int,
        base_revision: int,
        title: Seq<char>,
        body: Seq<char>,
        author: Option<Seq<char>>,
        created: int,
    },
}

/// The store with nothing in it.
pub open spec fn empty_store() -> TableView {
    TableView { revisions: Seq::empty(), articles: 0 }
}

/// The store after one call: with the new revision if the call succeeds,
/// and as it was if the call fails.
pub open spec fn step(store: TableView, call: Step) -> TableView {
    match call {
        Step::Create { target_slug, title, body, author, created } => if create_error(store, title)
            is None {
            after_create(store, created_row(store, target_slug, title, body, author, created))
        } else {
            store
        },
        Step::Update { article_id, base_revision, title, body, author, created } => if update_error(
            store,
            article_id,
            base_revision,
            title,
        ) is None {
            after_update(store, updated_row(store, article_id, title, body, author, created))
        } else {
            store
        },
    }
}

/// The store after a history of calls on the empty store.
pub open spec fn run(calls: Seq<Step>) -> TableView
    decreases calls.len(),
{
    if calls.len() == 0 {
        empty_store()
    } else {
        step(run(calls.drop_last()), calls.last())
    }
}

/// The call creates an article under a slug that the latest revision of
/// another article holds.
pub open spec fn takes_held_slug(store: TableView, call: Step) -> bool {
    match call {
        Step::Create { target_slug, title, body, author, created } => create_error(store, title)
            is None && slug_in_use(
            store.revisions,
            store.articles + 1,
            created_row(store, target_slug, title, body, author, created).slug,
        ),
        Step::Update { .. } => false,
    }
}

/// No call of the history creates an article under a slug that the latest
/// revision of another article holds at the time.
pub open spec fn collision_free(calls: Seq<Step>) -> bool
    decreases calls.len(),
{
    calls.len() > 0 ==> collision_free(calls.drop_last()) && !takes_held_slug(
        run(calls.drop_last()),
        calls.last(),
    )
}

/// One call keeps a well-formed store well formed.
pub proof fn lemma_step_well_formed(store: TableView, call: Step)
    requires
        well_formed(store),
    ensures
        well_formed(step(store, call)),
{
    match call {
        Step::Create { target_slug, title, body, author, created } => {
            if create_error(store, title) is None {
                lemma_create_well_formed(
                    store,
                    created_row(store, target_slug, title, body, author, created),
                );
            }
        },
        Step::Update { article_id, base_revision, title, body, author, created } => {
            if update_error(store, article_id, base_revision, title) is None {
                lemma_update_well_formed(
                    store,
                    updated_row(store, article_id, title, body, author, created),
                );
            }
        },
    }
}

/// After any history of calls the store is well formed.
pub proof fn lemma_history_well_formed(calls: Seq<Step>)
    ensures
        well_formed(run(calls)),
    decreases calls.len(),
{
    if calls.len() > 0 {
        lemma_history_well_formed(calls.drop_last());
        lemma_step_well_formed(run(calls.drop_last()), calls.last());
    } else {
        assert(well_formed(empty_store()));
    }
}

/// After any history of calls, every article has exactly one revision that
/// is flagged as latest, and the number of that revision is the number of
/// revisions that the article has.
pub proof fn lemma_history_one_latest(calls: Seq<Step>, article_id: int)
    requires
        1 <= article_id <= run(calls).articles,
    ensures
        ({
            let rows = run(calls).revisions;
            let k = current_row(rows, article_id);
            &&& 0 <= k < rows.len()
            &&& rows[k].article_id == article_id
            &&& rows[k].latest
            &&& rows[k].revision == revision_count(rows, article_id)
            &&& forall|i: int|
                0 <= i < rows.len() && (#[trigger] rows[i]).article_id == article_id
                    && rows[i].latest ==> i == k
        }),
{
    lemma_history_well_formed(calls);
    lemma_one_latest_per_article(run(calls), article_id);
}

/// A call that creates an article without asking for a slug never takes a
/// slug that another article holds. One that asks for a slug can take a
/// held one only by getting the very slug that it asks for.
pub proof fn lemma_takes_held_slug(store: TableView, call: Step)
    requires
        takes_held_slug(store, call),
    ensures
        call matches Step::Create { target_slug, title, body, author, created } && target_slug
            == Some(created_row(store, target_slug, title, body, author, created).slug),
{
    match call {
        Step::Create { target_slug, title, body, author, created } => {
            lemma_decided_slug(
                store.revisions,
                store.articles + 1,
                Seq::empty(),
                title,
                target_slug,
            );
        },
        Step::Update { .. } => {},
    }
}

/// One call that does not take a held slug keeps every current slug
/// resolving to its article.
pub proof fn lemma_step_resolves(store: TableView, call: Step)
    requires
        well_formed(store),
        slugs_resolve(store.revisions),
        !takes_held_slug(store, call),
    ensures
        slugs_resolve(step(store, call).revisions),
{
    match call {
        Step::Create { target_slug, title, body, author, created } => {
            if create_error(store, title) is None {
                lemma_create_resolves(
                    store,
                    created_row(store, target_slug, title, body, author, created),
                );
            }
        },
        Step::Update { article_id, base_revision, title, body, author, created } => {
            if update_error(store, article_id, base_revision, title) is None {
                let k = current_row(store.revisions, article_id);
                lemma_current_before(store.revisions, article_id, store.revisions.len() as int);
                lemma_decided_slug(
                    store.revisions,
                    article_id,
                    store.revisions[k].title,
                    title,
                    Some(store.revisions[k].slug),
                );
                lemma_update_resolves(
                    store,
                    updated_row(store, article_id, title, body, author, created),
                );
            }
        },
    }
}

/// After a history of calls of which none takes a held slug, the current
/// slug of every article resolves to that article, and no two articles
/// have the same current slug.
pub proof fn lemma_history_slugs_unique(calls: Seq<Step>, a: int, b: int)
    requires
        collision_free(calls),
        1 <= a <= run(calls).articles,
        1 <= b <= run(calls).articles,
        a != b,
    ensures
        slugs_resolve(run(calls).revisions),
        ({
            let rows = run(calls).revisions;
            rows[current_row(rows, a)].slug != rows[current_row(rows, b)].slug
        }),
{
    lemma_history_resolves(calls);
    lemma_history_one_latest(calls, a);
    lemma_history_one_latest(calls, b);
}

/// After a history of calls of which none takes a held slug, the current
/// slug of every article resolves to that article.
pub proof fn lemma_history_resolves(calls: Seq<Step>)
    requires
        collision_free(calls),
    ensures
        slugs_resolve(run(calls).revisions),
    decreases calls.len(),
{
    if calls.len() > 0 {
        lemma_history_resolves(calls.drop_last());
        lemma_history_well_formed(calls.drop_last());
        lemma_step_resolves(run(calls.drop_last()), calls.last());
    }
}

/// A call that takes a held slug leaves two articles with the same current
/// slug.
pub proof fn lemma_collision_breaks_uniqueness(store: TableView, call: Step)
    requires
        takes_held_slug(store, call),
    ensures
        !slugs_unique(step(store, call).revisions),
{
    match call {
        Step::Create { target_slug, title, body, author, created } => {
            let row = created_row(store, target_slug, title, body, author, created);
            let after = after_create(store, row).revisions;
            let holder = choose|i: int|
                #[trigger] occupies(store.revisions, store.articles + 1, row.slug, i);
            assert(after[holder].latest && after[holder].slug == row.slug);
            assert(after[store.revisions.len() as int] == row);
        },
        Step::Update { .. } => {},
    }
}

/// The current slugs of the articles differ from each other at every point
/// of a history exactly if no call of the history takes a held slug.
pub proof fn lemma_unique_throughout(calls: Seq<Step>)
    ensures
        collision_free(calls) <==> forall|k: int|
            0 <= k <= calls.len() ==> slugs_unique(#[trigger] run(calls.take(k)).revisions),
    decreases calls.len(),
{
    if calls.len() > 0 {
        let front = calls.drop_last();
        lemma_unique_throughout(front);
        assert(calls.take(calls.len() as int) =~= calls);
        assert forall|k: int| 0 <= k <= front.len() implies #[trigger] calls.take(k) == front.take(
            k,
        ) by {
            assert(calls.take(k) =~= front.take(k));
        }
        assert(front.take(front.len() as int) =~= front);
        if collision_free(calls) {
            assert forall|k: int| 0 <= k <= calls.len() implies slugs_unique(
                #[trigger] run(calls.take(k)).revisions,
            ) by {
                if k < calls.len() {
                    assert(calls.take(k) == front.take(k));
                } else {
                    lemma_history_resolves(calls);
                    lemma_resolve_unique(run(calls).revisions);
                }
            }
        }
        if forall|k: int|
            0 <= k <= calls.len() ==> slugs_unique(#[trigger] run(calls.take(k)).revisions) {
            assert forall|k: int| 0 <= k <= front.len() implies slugs_unique(
                #[trigger] run(front.take(k)).revisions,
            ) by {
                assert(calls.take(k) == front.take(k));
                assert(slugs_unique(run(calls.take(k)).revisions));
            }
            assert(collision_free(front));
            if takes_held_slug(run(front), calls.last()) {
                lemma_collision_breaks_uniqueness(run(front), calls.last());
                assert(slugs_unique(run(calls.take(calls.len() as int)).revisions));
            }
        }
    } else {
        assert forall|k: int| 0 <= k <= calls.len() implies slugs_unique(
            #[trigger] run(calls.take(k)).revisions,
        ) by {
            assert(calls.take(k) =~= calls);
        }
    }
}

/// Where every current slug resolves to its article, the current slug of
/// an article leads to its latest revision.
pub proof fn lemma_current_slug_hits(store: TableView, article_id: int)
    requires
        well_formed(store),
        slugs_resolve(store.revisions),
        1 <= article_id <= store.articles,
    ensures
        ({
            let row = store.revisions[current_row(store.revisions, article_id)];
            slug_lookup(store.revisions, row.slug) == SlugLookupView::Hit {
                article_id,
                revision: row.revision,
            }
        }),
{
    lemma_one_latest_per_article(store, article_id);
}

/// An edit that keeps the title keeps the slug.
pub proof fn lemma_same_title_keeps_slug(
    store: TableView,
    article_id: int,
    title: Seq<char>,
    body: Seq<char>,
    author: Option<Seq<char>>,
    created: int,
)
    requires
        current_row(store.revisions, article_id) >= 0,
        title == store.revisions[current_row(store.revisions, article_id)].title,
    ensures
        updated_row(store, article_id, title, body, author, created).slug
            == store.revisions[current_row(store.revisions, article_id)].slug,
{
    let prev = store.revisions[current_row(store.revisions, article_id)];
    if prev.slug.len() == 0 {
        assert(prev.slug =~= Seq::<char>::empty());
    }
}

/// After an edit the new slug of the article leads to its new revision,
/// and if the edit changed the slug, the old slug leads on to the new one,
/// provided that the old slug led to the article before.
pub proof fn lemma_rename_redirects(
    store: TableView,
    article_id: int,
    base_revision: int,
    title: Seq<char>,
    body: Seq<char>,
    author: Option<Seq<char>>,
    created: int,
)
    requires
        well_formed(store),
        update_error(store, article_id, base_revision, title) is None,
    ensures
        ({
            let old_slug = store.revisions[current_row(store.revisions, article_id)].slug;
            let row = updated_row(store, article_id, title, body, author, created);
            let after = after_update(store, row).revisions;
            &&& slug_lookup(after, row.slug) == SlugLookupView::Hit {
                article_id,
                revision: base_revision + 1,
            }
            &&& row.slug != old_slug && slug_lookup(store.revisions, old_slug)
                == (SlugLookupView::Hit { article_id, revision: base_revision })
                ==> slug_lookup(after, old_slug) == SlugLookupView::Redirect(row.slug)
        }),
{
    let rows = store.revisions;
    let n = rows.len() as int;
    let k = current_row(rows, article_id);
    let old_slug = rows[k].slug;
    let row = updated_row(store, article_id, title, body, author, created);
    let after = after_update(store, row).revisions;
    lemma_current_before(rows, article_id, n);
    assert(row_well_formed(store, k));
    lemma_one_latest_per_article(store, article_id);
    lemma_holder_agree(rows, after, old_slug, n);
    assert(after[n] == row);
    assert(current_before(after, article_id, n + 1) == n);
    if row.slug != old_slug && slug_lookup(rows, old_slug) == (SlugLookupView::Hit {
        article_id,
        revision: base_revision,
    }) {
        let h = last_holder(rows, old_slug);
        lemma_holder_before(rows, old_slug, n);
        assert(rows[h].latest && rows[h].article_id == article_id);
        assert(h == k);
        assert(last_holder(after, old_slug) == holder_before(after, old_slug, n));
        assert(!after[k].latest);
        assert(after[k].article_id == article_id);
    }
}

/// A redirect never leads back to the slug that it was found for, and
/// where every current slug resolves to its article, it leads in one step
/// to the latest revision of the article that once held the slug.
pub proof fn lemma_redirect_leads_to_article(store: TableView, slug: Seq<char>)
    requires
        well_formed(store),
        slug_lookup(store.revisions, slug) is Redirect,
    ensures
        ({
            let rows = store.revisions;
            let target = slug_lookup(rows, slug)->Redirect_0;
            let owner = rows[last_holder(rows, slug)].article_id;
            &&& target != slug
            &&& slugs_resolve(rows) ==> slug_lookup(rows, target) == SlugLookupView::Hit {
                article_id: owner,
                revision: revision_count(rows, owner) as int,
            }
        }),
{
    let rows = store.revisions;
    let n = rows.len() as int;
    let held = last_holder(rows, slug);
    lemma_holder_before(rows, slug, n);
    assert(row_well_formed(store, held));
    let owner = rows[held].article_id;
    lemma_one_latest_per_article(store, owner);
    let k = current_row(rows, owner);
    assert(slug_lookup(rows, slug)->Redirect_0 == rows[k].slug);
    if rows[k].slug == slug {
        assert(k < held);
        assert(row_well_formed(store, k));
        lemma_count_monotone(rows, owner, k, held);
        lemma_count_monotone(rows, owner, held + 1, n);
        assert(false);
    }
    if slugs_resolve(rows) {
        assert(last_holder(rows, rows[k].slug) == k);
    }
}

/// After an article is created under a slug that no other article holds,
/// the slug leads to the first revision of the article.
pub proof fn lemma_created_slug_hits(
    store: TableView,
    target_slug: Option<Seq<char>>,
    title: Seq<char>,
    body: Seq<char>,
    author: Option<Seq<char>>,
    created: int,
)
    ensures
        ({
            let row = created_row(store, target_slug, title, body, author, created);
            slug_lookup(after_create(store, row).revisions, row.slug) == SlugLookupView::Hit {
                article_id: store.articles + 1,
                revision: 1,
            }
        }),
{
}

/// The path of an article leads to the article only if its segment is its
/// own slug: a segment that is not leads to a redirect to its slug,
/// whatever the store holds.
pub proof fn lemma_unslugified_redirects(
    rows: Seq<RevisionView>,
    path: Seq<char>,
    query: Option<Seq<char>>,
)
    ensures
        split_path(path) matches Ok((segment, tail)) ==> (tail is None && slugified(segment)
            != segment ==> article_resource(rows, path, query) == Ok::<_, Error>(
            Some(ResourceView::ArticleRedirect { slug: slugified(segment) }),
        )),
        article_resource(rows, path, query) matches Ok(Some(ResourceView::Article { .. }))
            ==> (split_path(path) matches Ok((segment, tail)) && slugified(segment) == segment),
{
}

} // verus!
