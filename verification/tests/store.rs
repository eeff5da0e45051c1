use wiki_engine::listing::{StubOrder, StubQuery};
use wiki_engine::models::{ArticleRevision, Error, SlugLookup, StoreFailure};
use wiki_engine::state::{decide_slug, SyncState};

fn create(state: &mut SyncState, title: &str) -> ArticleRevision {
    state
        .create_article(None, title.to_owned(), format!("about {}", title), None, 1000)
        .unwrap()
}

fn update(state: &mut SyncState, article_id: i32, base: i32, title: &str) -> ArticleRevision {
    state
        .update_article(article_id, base, title.to_owned(), format!("more about {}", title), None, 2000)
        .unwrap()
}

fn all_rows(state: &SyncState) -> Vec<wiki_engine::models::ArticleRevisionStub> {
    state
        .query_article_revision_stubs(StubQuery {
            latest_only: false,
            article_id: None,
            author: None,
            after: None,
            before: None,
            order: StubOrder::Sequence,
            limit: None,
        })
        .unwrap()
}

#[test]
fn get_article_slug() {
    let state = SyncState::new();

    assert!(matches!(state.get_article_slug(0), Ok(None)));
}

#[test]
fn get_article_slug_gives_the_latest_slug() {
    let mut state = SyncState::new();
    let first = create(&mut state, "Old Name");
    assert_eq!(state.get_article_slug(first.article_id).unwrap(), Some("old-name".to_owned()));
    update(&mut state, first.article_id, 1, "New Name");
    assert_eq!(state.get_article_slug(first.article_id).unwrap(), Some("new-name".to_owned()));
    assert_eq!(state.get_article_slug(2).unwrap(), None);
    assert_eq!(state.get_article_slug(-1).unwrap(), None);
}

#[test]
fn created_article_has_the_fields_it_was_given() {
    let mut state = SyncState::new();
    let row = state
        .create_article(
            None,
            "Hello World".to_owned(),
            "body text".to_owned(),
            Some("ada".to_owned()),
            1234,
        )
        .unwrap();
    assert_eq!(row.sequence_number, 1);
    assert_eq!(row.article_id, 1);
    assert_eq!(row.revision, 1);
    assert_eq!(row.created, 1234);
    assert_eq!(row.slug, "hello-world");
    assert_eq!(row.title, "Hello World");
    assert_eq!(row.body, "body text");
    assert!(row.latest);
    assert_eq!(row.author, Some("ada".to_owned()));
}

#[test]
fn create_two_articles_with_the_same_title() {
    let mut state = SyncState::new();
    let first = create(&mut state, "Hello World");
    let second = create(&mut state, "Hello World");
    let third = create(&mut state, "Hello World");
    assert_eq!(first.slug, "hello-world");
    assert_eq!(second.slug, "hello-world-2");
    assert_eq!(third.slug, "hello-world-3");
    assert_eq!(first.article_id, 1);
    assert_eq!(second.article_id, 2);
    assert_eq!(third.article_id, 3);
}

#[test]
fn disambiguation_counts_past_nine() {
    let mut state = SyncState::new();
    let mut last = String::new();
    for _ in 0..12 {
        last = create(&mut state, "Same").slug;
    }
    assert_eq!(last, "same-12");
    assert_eq!(state.get_article_slug(10).unwrap(), Some("same-10".to_owned()));
}

#[test]
fn new_article_never_gets_the_empty_slug() {
    let mut state = SyncState::new();
    for title in ["Hello", "!!!", "   ", "Żółć", "-", "a"] {
        let slug = decide_slug(&state, 1, "", title, None).unwrap();
        assert!(!slug.is_empty(), "title {:?} got the empty slug", title);
    }
    assert_eq!(decide_slug(&state, 1, "", "!!!", None).unwrap(), "article");
    let first = create(&mut state, "!!!");
    let second = create(&mut state, "???");
    assert_eq!(first.slug, "article");
    assert_eq!(second.slug, "article-2");
}

#[test]
fn decide_slug_follows_its_rules_in_order() {
    let mut state = SyncState::new();
    create(&mut state, "Taken");
    // the front page keeps the empty slug, whatever its title
    assert_eq!(decide_slug(&state, 9, "Home", "Anything", Some("")).unwrap(), "");
    assert_eq!(decide_slug(&state, 9, "Home", "Home", Some("")).unwrap(), "");
    // an unchanged title keeps the slug, even one that the title would not get
    assert_eq!(decide_slug(&state, 9, "Taken", "Taken", Some("odd-slug")).unwrap(), "odd-slug");
    // a title whose slug is the previous slug keeps it, taken or not
    assert_eq!(decide_slug(&state, 9, "taken", "Taken", Some("taken")).unwrap(), "taken");
    // any other title is disambiguated against the other articles
    assert_eq!(decide_slug(&state, 9, "Old", "Taken", Some("old")).unwrap(), "taken-2");
    assert_eq!(decide_slug(&state, 9, "", "Taken", None).unwrap(), "taken-2");
    // an article never collides with itself
    assert_eq!(decide_slug(&state, 1, "Old", "Taken", Some("old")).unwrap(), "taken");
    assert_eq!(decide_slug(&state, 9, "Old", "Free", Some("old")).unwrap(), "free");
}

#[test]
fn front_page_is_created_with_the_empty_slug() {
    let mut state = SyncState::new();
    let front = state
        .create_article(Some(String::new()), "Welcome".to_owned(), "hi".to_owned(), None, 1)
        .unwrap();
    assert_eq!(front.slug, "");
    let edited = update(&mut state, front.article_id, 1, "Welcome to the wiki");
    assert_eq!(edited.slug, "");
    assert!(matches!(
        state.lookup_slug(String::new()),
        Ok(SlugLookup::Hit { article_id: 1, revision: 2 })
    ));
}

#[test]
fn empty_title_is_rejected() {
    let mut state = SyncState::new();
    let refused = state.create_article(None, String::new(), "body".to_owned(), None, 1);
    assert!(matches!(refused, Err(Error::Validation)));
    assert!(all_rows(&state).is_empty());
    let first = create(&mut state, "Title");
    let refused = state.update_article(first.article_id, 1, String::new(), "body".to_owned(), None, 2);
    assert!(matches!(refused, Err(Error::Validation)));
    assert_eq!(all_rows(&state).len(), 1);
}

#[test]
fn empty_title_is_rejected_before_the_revision_is_compared() {
    let mut state = SyncState::new();
    create(&mut state, "Title");
    let refused = state.update_article(1, 7, String::new(), "body".to_owned(), None, 2);
    assert!(matches!(refused, Err(Error::Validation)));
    let refused = state.update_article(5, 7, String::new(), "body".to_owned(), None, 2);
    assert!(matches!(refused, Err(Error::Validation)));
}

#[test]
fn update_of_an_unknown_article_fails() {
    let mut state = SyncState::new();
    create(&mut state, "Title");
    let refused = state.update_article(2, 1, "Other".to_owned(), "body".to_owned(), None, 2);
    assert!(matches!(refused, Err(Error::Store(StoreFailure::NoSuchArticle))));
    assert_eq!(all_rows(&state).len(), 1);
}

#[test]
fn stale_edit_is_a_conflict() {
    let mut state = SyncState::new();
    let first = create(&mut state, "Title");
    update(&mut state, first.article_id, 1, "Title");
    let stale =
        state.update_article(first.article_id, 1, "Title".to_owned(), "x".to_owned(), None, 12);
    assert!(matches!(stale, Err(Error::Conflict { latest_revision: 2 })));
    let ahead =
        state.update_article(first.article_id, 3, "Title".to_owned(), "x".to_owned(), None, 12);
    assert!(matches!(ahead, Err(Error::Conflict { latest_revision: 2 })));
    // nothing was written
    let rows = all_rows(&state);
    assert_eq!(rows.len(), 2);
    assert!(!rows[0].latest);
    assert!(rows[1].latest);
}

#[test]
fn edit_that_keeps_the_title_keeps_the_slug() {
    let mut state = SyncState::new();
    create(&mut state, "Hello World");
    let second = create(&mut state, "Hello World");
    assert_eq!(second.slug, "hello-world-2");
    let edited = update(&mut state, second.article_id, 1, "Hello World");
    assert_eq!(edited.slug, "hello-world-2");
    assert_eq!(edited.revision, 2);
    let again = update(&mut state, second.article_id, 2, "Hello World");
    assert_eq!(again.slug, "hello-world-2");
}

#[test]
fn edit_that_changes_the_title_changes_the_slug() {
    let mut state = SyncState::new();
    let first = create(&mut state, "First Title");
    create(&mut state, "Second Title");
    let renamed = update(&mut state, first.article_id, 1, "Second Title");
    assert_eq!(renamed.slug, "second-title-2");
    // a title with the same slug as before keeps the slug
    let recased = update(&mut state, first.article_id, 2, "SECOND title 2");
    assert_eq!(recased.slug, "second-title-2");
}

#[test]
fn every_article_has_one_latest_revision_and_it_is_the_last() {
    let mut state = SyncState::new();
    let a = create(&mut state, "A").article_id;
    let b = create(&mut state, "B").article_id;
    update(&mut state, a, 1, "A2");
    update(&mut state, b, 1, "B");
    update(&mut state, a, 2, "A3");
    let c = create(&mut state, "C").article_id;
    update(&mut state, a, 3, "A3");
    let _ = state.update_article(b, 1, "stale".to_owned(), String::new(), None, 0);
    let rows = all_rows(&state);
    assert_eq!(rows.len(), 7);
    for (index, row) in rows.iter().enumerate() {
        assert_eq!(row.sequence_number as usize, index + 1);
    }
    for (article, count) in [(a, 4), (b, 2), (c, 1)] {
        let of_article: Vec<_> = rows.iter().filter(|r| r.article_id == article).collect();
        assert_eq!(of_article.len(), count);
        for (index, row) in of_article.iter().enumerate() {
            assert_eq!(row.revision as usize, index + 1);
            assert_eq!(row.latest, index + 1 == count);
        }
    }
}

#[test]
fn current_slugs_of_different_articles_differ() {
    let mut state = SyncState::new();
    let a = create(&mut state, "Name").article_id;
    let b = create(&mut state, "Name").article_id;
    let c = create(&mut state, "Other").article_id;
    update(&mut state, c, 1, "Name");
    update(&mut state, a, 1, "Other");
    update(&mut state, b, 1, "Other");
    let slugs: Vec<String> = [a, b, c]
        .iter()
        .map(|id| state.get_article_slug(*id).unwrap().unwrap())
        .collect();
    assert_eq!(slugs, vec!["other".to_owned(), "other-2".to_owned(), "name-3".to_owned()]);
}

#[test]
fn asking_for_a_held_slug_can_break_uniqueness() {
    let mut state = SyncState::new();
    let first = create(&mut state, "Hello World");
    let second = state
        .create_article(
            Some("hello-world".to_owned()),
            "Hello World".to_owned(),
            String::new(),
            None,
            1,
        )
        .unwrap();
    assert_eq!(first.slug, "hello-world");
    assert_eq!(second.slug, "hello-world");
    // a requested slug that is not the slug of the title is not used at all
    let third = state
        .create_article(Some("wanted".to_owned()), "Hello World".to_owned(), String::new(), None, 1)
        .unwrap();
    assert_eq!(third.slug, "hello-world-2");
}

#[test]
fn renamed_article_redirects() {
    let mut state = SyncState::new();
    let first = create(&mut state, "Foo");
    assert_eq!(first.slug, "foo");
    let second = update(&mut state, first.article_id, 1, "Bar");
    assert_eq!(second.slug, "bar");
    match state.lookup_slug("foo".to_owned()).unwrap() {
        SlugLookup::Redirect(slug) => assert_eq!(slug, "bar"),
        other => panic!("expected a redirect, got {:?}", other),
    }
    assert!(matches!(
        state.lookup_slug("bar".to_owned()),
        Ok(SlugLookup::Hit { article_id: 1, revision: 2 })
    ));
    assert!(matches!(state.lookup_slug("baz".to_owned()), Ok(SlugLookup::Miss)));
}

#[test]
fn every_old_slug_redirects_to_where_the_article_lives_now() {
    let mut state = SyncState::new();
    let id = create(&mut state, "Foo").article_id;
    update(&mut state, id, 1, "Bar");
    update(&mut state, id, 2, "Baz");
    for old in ["foo", "bar"] {
        match state.lookup_slug(old.to_owned()).unwrap() {
            SlugLookup::Redirect(slug) => assert_eq!(slug, "baz"),
            other => panic!("expected a redirect, got {:?}", other),
        }
    }
    assert!(matches!(
        state.lookup_slug("baz".to_owned()),
        Ok(SlugLookup::Hit { article_id: 1, revision: 3 })
    ));
}

#[test]
fn abandoned_slug_goes_to_the_article_that_takes_it_next() {
    let mut state = SyncState::new();
    let a = create(&mut state, "Foo").article_id;
    update(&mut state, a, 1, "Bar");
    let b = create(&mut state, "Foo");
    assert_eq!(b.slug, "foo");
    assert!(matches!(
        state.lookup_slug("foo".to_owned()),
        Ok(SlugLookup::Hit { article_id: 2, revision: 1 })
    ));
    // and when that article moves on, the slug follows it
    update(&mut state, b.article_id, 1, "Qux");
    match state.lookup_slug("foo".to_owned()).unwrap() {
        SlugLookup::Redirect(slug) => assert_eq!(slug, "qux"),
        other => panic!("expected a redirect, got {:?}", other),
    }
}

#[test]
fn lookup_on_an_empty_store_misses() {
    let state = SyncState::new();
    assert!(matches!(state.lookup_slug("anything".to_owned()), Ok(SlugLookup::Miss)));
    assert!(matches!(state.lookup_slug(String::new()), Ok(SlugLookup::Miss)));
}

#[test]
fn get_article_revision_finds_each_revision() {
    let mut state = SyncState::new();
    let id = create(&mut state, "One").article_id;
    update(&mut state, id, 1, "Two");
    let first = state.get_article_revision(id, 1).unwrap().unwrap();
    assert_eq!(first.title, "One");
    assert_eq!(first.body, "about One");
    assert!(!first.latest);
    let second = state.get_article_revision(id, 2).unwrap().unwrap();
    assert_eq!(second.title, "Two");
    assert_eq!(second.created, 2000);
    assert!(second.latest);
    assert!(state.get_article_revision(id, 3).unwrap().is_none());
    assert!(state.get_article_revision(id, 0).unwrap().is_none());
    assert!(state.get_article_revision(id + 1, 1).unwrap().is_none());
}

#[test]
fn latest_articles_are_listed_by_title() {
    let mut state = SyncState::new();
    let pears = create(&mut state, "pears").article_id;
    create(&mut state, "Apples");
    create(&mut state, "apples");
    create(&mut state, "Apples");
    update(&mut state, pears, 1, "Bananas");
    let listed = state.get_latest_article_revision_stubs().unwrap();
    let titles: Vec<(&str, i32)> =
        listed.iter().map(|e| (e.title.as_str(), e.article_id)).collect();
    assert_eq!(titles, vec![("Apples", 2), ("Apples", 4), ("Bananas", 1), ("apples", 3)]);
    assert!(listed.iter().all(|e| e.latest));
}

#[test]
fn titles_are_ordered_by_code_point_and_prefixes_come_first() {
    let mut state = SyncState::new();
    for title in ["b", "ab", "a", "é", "abc", "Z", "aa"] {
        create(&mut state, title);
    }
    let listed = state.get_latest_article_revision_stubs().unwrap();
    let titles: Vec<&str> = listed.iter().map(|e| e.title.as_str()).collect();
    assert_eq!(titles, vec!["Z", "a", "aa", "ab", "abc", "b", "é"]);
}

#[test]
fn listing_filters_orders_and_limits() {
    let mut state = SyncState::new();
    let a = state
        .create_article(None, "A".to_owned(), String::new(), Some("ada".to_owned()), 1)
        .unwrap()
        .article_id;
    let b = state
        .create_article(None, "B".to_owned(), String::new(), Some("bob".to_owned()), 2)
        .unwrap()
        .article_id;
    state.update_article(a, 1, "A".to_owned(), String::new(), Some("bob".to_owned()), 3).unwrap();
    state.update_article(b, 1, "B".to_owned(), String::new(), None, 4).unwrap();
    state.update_article(a, 2, "A".to_owned(), String::new(), Some("ada".to_owned()), 5).unwrap();
    let numbers = |query: StubQuery| -> Vec<i32> {
        state
            .query_article_revision_stubs(query)
            .unwrap()
            .iter()
            .map(|e| e.sequence_number)
            .collect()
    };
    let everything = || StubQuery {
        latest_only: false,
        article_id: None,
        author: None,
        after: None,
        before: None,
        order: StubOrder::Sequence,
        limit: None,
    };
    assert_eq!(numbers(everything()), vec![1, 2, 3, 4, 5]);
    assert_eq!(numbers(StubQuery { order: StubOrder::Newest, ..everything() }), vec![5, 4, 3, 2, 1]);
    assert_eq!(
        numbers(StubQuery { order: StubOrder::Newest, limit: Some(2), ..everything() }),
        vec![5, 4]
    );
    assert_eq!(numbers(StubQuery { limit: Some(0), ..everything() }), Vec::<i32>::new());
    assert_eq!(numbers(StubQuery { limit: Some(9), ..everything() }), vec![1, 2, 3, 4, 5]);
    assert_eq!(numbers(StubQuery { latest_only: true, ..everything() }), vec![4, 5]);
    assert_eq!(numbers(StubQuery { article_id: Some(a), ..everything() }), vec![1, 3, 5]);
    assert_eq!(numbers(StubQuery { author: Some("ada".to_owned()), ..everything() }), vec![1, 5]);
    assert_eq!(numbers(StubQuery { author: Some(String::new()), ..everything() }), Vec::<i32>::new());
    assert_eq!(numbers(StubQuery { after: Some(3), ..everything() }), vec![4, 5]);
    assert_eq!(numbers(StubQuery { before: Some(3), ..everything() }), vec![1, 2]);
    assert_eq!(
        numbers(StubQuery {
            before: Some(5),
            after: Some(1),
            order: StubOrder::Newest,
            limit: Some(2),
            ..everything()
        }),
        vec![4, 3]
    );
    assert_eq!(numbers(StubQuery { order: StubOrder::Title, ..everything() }), vec![1, 3, 5, 2, 4]);
}

#[test]
fn listing_entries_carry_the_row_without_its_body() {
    let mut state = SyncState::new();
    let row = state
        .create_article(None, "Title".to_owned(), "long body".to_owned(), Some("ada".to_owned()), 77)
        .unwrap();
    let listed = all_rows(&state);
    assert_eq!(listed.len(), 1);
    assert_eq!(listed[0].sequence_number, row.sequence_number);
    assert_eq!(listed[0].article_id, row.article_id);
    assert_eq!(listed[0].revision, row.revision);
    assert_eq!(listed[0].created, 77);
    assert_eq!(listed[0].slug, row.slug);
    assert_eq!(listed[0].title, row.title);
    assert_eq!(listed[0].latest, row.latest);
    assert_eq!(listed[0].author, row.author);
    let stub = row.stub();
    assert_eq!(stub.slug, "title");
    assert_eq!(stub.author, Some("ada".to_owned()));
}

fn row(sequence_number: i32, article_id: i32, revision: i32, slug: &str, latest: bool) -> ArticleRevision {
    ArticleRevision {
        sequence_number,
        article_id,
        revision,
        created: 0,
        slug: slug.to_owned(),
        title: slug.to_owned(),
        body: String::new(),
        latest,
        author: None,
    }
}

#[test]
fn well_formed_rows_are_loaded() {
    let rows = vec![
        row(1, 1, 1, "a", false),
        row(2, 2, 1, "b", true),
        row(3, 1, 2, "c", true),
    ];
    let mut state = SyncState::from_revisions(rows).unwrap();
    assert_eq!(state.get_article_slug(1).unwrap(), Some("c".to_owned()));
    assert_eq!(state.get_article_slug(2).unwrap(), Some("b".to_owned()));
    assert!(matches!(state.lookup_slug("a".to_owned()), Ok(SlugLookup::Redirect(_))));
    // the loaded store goes on where the table ends
    let next = create(&mut state, "D");
    assert_eq!(next.sequence_number, 4);
    assert_eq!(next.article_id, 3);
    let edited = update(&mut state, 2, 1, "B2");
    assert_eq!(edited.sequence_number, 5);
    assert_eq!(edited.revision, 2);
    let empty = SyncState::from_revisions(Vec::new()).unwrap();
    assert!(all_rows(&empty).is_empty());
}

#[test]
fn rows_that_the_store_wrote_are_loaded_again() {
    let mut state = SyncState::new();
    let a = create(&mut state, "A").article_id;
    create(&mut state, "B");
    update(&mut state, a, 1, "A2");
    update(&mut state, a, 2, "A3");
    let mut rows = Vec::new();
    for article in 1..=2 {
        for revision in 1..=3 {
            if let Some(found) = state.get_article_revision(article, revision).unwrap() {
                rows.push(found);
            }
        }
    }
    rows.sort_by_key(|r| r.sequence_number);
    let loaded = SyncState::from_revisions(rows).unwrap();
    let before: Vec<(i32, i32, i32, bool, String)> = all_rows(&state)
        .iter()
        .map(|r| (r.sequence_number, r.article_id, r.revision, r.latest, r.slug.clone()))
        .collect();
    let after: Vec<(i32, i32, i32, bool, String)> = all_rows(&loaded)
        .iter()
        .map(|r| (r.sequence_number, r.article_id, r.revision, r.latest, r.slug.clone()))
        .collect();
    assert_eq!(before, after);
}

#[test]
fn rows_that_the_store_could_not_have_written_are_refused() {
    let corrupt = |rows: Vec<ArticleRevision>| {
        matches!(SyncState::from_revisions(rows), Err(Error::Store(StoreFailure::Corrupt)))
    };
    // a sequence number out of place
    assert!(corrupt(vec![row(2, 1, 1, "a", true)]));
    assert!(corrupt(vec![row(1, 1, 1, "a", true), row(3, 2, 1, "b", true)]));
    // an article identity that is none
    assert!(corrupt(vec![row(1, 0, 1, "a", true)]));
    assert!(corrupt(vec![row(1, -1, 1, "a", true)]));
    // an article without revisions
    assert!(corrupt(vec![row(1, 2, 1, "a", true)]));
    assert!(corrupt(vec![row(1, 1, 1, "a", true), row(2, 3, 1, "b", true)]));
    // a revision number out of place
    assert!(corrupt(vec![row(1, 1, 2, "a", true)]));
    assert!(corrupt(vec![row(1, 1, 1, "a", false), row(2, 1, 3, "b", true)]));
    assert!(corrupt(vec![row(1, 1, 1, "a", false), row(2, 1, 1, "b", true)]));
    // no latest revision, or two of them, or the wrong one
    assert!(corrupt(vec![row(1, 1, 1, "a", false)]));
    assert!(corrupt(vec![row(1, 1, 1, "a", true), row(2, 1, 2, "b", true)]));
    assert!(corrupt(vec![row(1, 1, 1, "a", true), row(2, 1, 2, "b", false)]));
}

#[test]
fn invariants_hold_after_a_long_history() {
    let titles = ["Alpha", "Beta", "alpha", "Gamma Ray", "!!!", "Beta", "Delta", "gamma-ray", "A", "B"];
    let mut state = SyncState::new();
    let mut seed: u32 = 12345;
    let mut next = |bound: u32| -> u32 {
        seed = seed.wrapping_mul(1664525).wrapping_add(1013904223);
        (seed >> 8) % bound
    };
    let mut articles: i32 = 0;
    for round in 0..400 {
        let title = titles[next(titles.len() as u32) as usize];
        if articles == 0 || next(3) == 0 {
            state.create_article(None, title.to_owned(), String::new(), None, round).unwrap();
            articles += 1;
        } else {
            let id = 1 + next(articles as u32) as i32;
            let latest = state
                .query_article_revision_stubs(StubQuery {
                    latest_only: true,
                    article_id: Some(id),
                    author: None,
                    after: None,
                    before: None,
                    order: StubOrder::Sequence,
                    limit: None,
                })
                .unwrap();
            assert_eq!(latest.len(), 1);
            let base = if next(5) == 0 { latest[0].revision - 1 } else { latest[0].revision };
            let outcome =
                state.update_article(id, base, title.to_owned(), String::new(), None, round);
            assert_eq!(outcome.is_ok(), base == latest[0].revision);
        }
    }
    let rows = all_rows(&state);
    let mut current = Vec::new();
    for id in 1..=articles {
        let of_article: Vec<_> = rows.iter().filter(|r| r.article_id == id).collect();
        assert!(!of_article.is_empty());
        for (index, row) in of_article.iter().enumerate() {
            assert_eq!(row.revision as usize, index + 1);
            assert_eq!(row.latest, index + 1 == of_article.len());
        }
        let last = of_article[of_article.len() - 1];
        assert!(!last.slug.is_empty());
        match state.lookup_slug(last.slug.clone()).unwrap() {
            SlugLookup::Hit { article_id, revision } => {
                assert_eq!(article_id, id);
                assert_eq!(revision, last.revision);
            }
            other => panic!("the current slug of {} gives {:?}", id, other),
        }
        current.push(last.slug.clone());
    }
    let mut distinct = current.clone();
    distinct.sort();
    distinct.dedup();
    assert_eq!(distinct.len(), current.len());
    // every slug that was ever held leads to some article
    for row in &rows {
        match state.lookup_slug(row.slug.clone()).unwrap() {
            SlugLookup::Miss => panic!("{} is lost", row.slug),
            SlugLookup::Hit { .. } => {}
            SlugLookup::Redirect(target) => assert!(current.contains(&target)),
        }
    }
}
