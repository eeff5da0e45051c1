use wiki_engine::models::{Error, SlugLookup};
use wiki_engine::new_article_resource::{title_from_slug, NewArticleResource};
use wiki_engine::paths::split_one;
use wiki_engine::state::SyncState;
use wiki_engine::wiki_lookup::{article_route, resolve_lookup, Route, Resource, WikiLookup};

fn dispatcher() -> WikiLookup {
    WikiLookup::new(vec![
        "style-abc.css".to_owned(),
        "script-def.js".to_owned(),
        "amatic-sc-v9-latin-regular.woff".to_owned(),
    ])
}

fn store() -> SyncState {
    let mut state = SyncState::new();
    state.create_article(None, "Hello World".to_owned(), "b".to_owned(), None, 1).unwrap();
    state.create_article(None, "Moved".to_owned(), "b".to_owned(), None, 2).unwrap();
    state.update_article(2, 1, "Settled".to_owned(), "b".to_owned(), None, 3).unwrap();
    state
}

#[test]
fn unslugified_path_redirects_to_its_slug() {
    let state = store();
    let lookup = dispatcher();
    for path in ["/Hello World", "/Hello%20World", "/hello_world", "/HELLO-WORLD", "/hello-world-"] {
        match lookup.lookup(&state, path, None).unwrap() {
            Some(Resource::ArticleRedirect { slug }) => assert_eq!(slug, "hello-world"),
            other => panic!("{}: expected a redirect, got {:?}", path, other),
        }
    }
    match lookup.lookup(&state, "/Crème Brûlée", None).unwrap() {
        Some(Resource::ArticleRedirect { slug }) => assert_eq!(slug, "creme-brulee"),
        other => panic!("expected a redirect, got {:?}", other),
    }
    // whether or not an article lives there
    match lookup.lookup(&state, "/No Such Article", Some("edit")).unwrap() {
        Some(Resource::ArticleRedirect { slug }) => assert_eq!(slug, "no-such-article"),
        other => panic!("expected a redirect, got {:?}", other),
    }
}

#[test]
fn slug_of_an_article_leads_to_it() {
    let state = store();
    let lookup = dispatcher();
    assert!(matches!(
        lookup.lookup(&state, "/hello-world", None),
        Ok(Some(Resource::Article { article_id: 1, revision: 1, edit: false }))
    ));
    assert!(matches!(
        lookup.lookup(&state, "/hello-world", Some("edit")),
        Ok(Some(Resource::Article { article_id: 1, revision: 1, edit: true }))
    ));
    assert!(matches!(
        lookup.lookup(&state, "/hello-world", Some("edit=1")),
        Ok(Some(Resource::Article { article_id: 1, revision: 1, edit: false }))
    ));
    assert!(matches!(
        lookup.lookup(&state, "/hello-world", Some("")),
        Ok(Some(Resource::Article { article_id: 1, revision: 1, edit: false }))
    ));
    assert!(matches!(
        lookup.lookup(&state, "/settled", None),
        Ok(Some(Resource::Article { article_id: 2, revision: 2, edit: false }))
    ));
}

#[test]
fn percent_encoded_slug_is_decoded() {
    let state = store();
    let lookup = dispatcher();
    assert!(matches!(
        lookup.lookup(&state, "/hello%2Dworld", None),
        Ok(Some(Resource::Article { article_id: 1, revision: 1, edit: false }))
    ));
    assert!(matches!(
        lookup.lookup(&state, "/%68ello-worl%64", None),
        Ok(Some(Resource::Article { article_id: 1, revision: 1, edit: false }))
    ));
}

#[test]
fn old_slug_redirects_to_the_new_one() {
    let state = store();
    let lookup = dispatcher();
    match lookup.lookup(&state, "/moved", None).unwrap() {
        Some(Resource::ArticleRedirect { slug }) => assert_eq!(slug, "settled"),
        other => panic!("expected a redirect, got {:?}", other),
    }
}

#[test]
fn unknown_slug_leads_to_the_composer() {
    let state = store();
    let lookup = dispatcher();
    match lookup.lookup(&state, "/not-yet", None).unwrap() {
        Some(Resource::NewArticle(composer)) => {
            assert_eq!(composer.slug, Some("not-yet".to_owned()));
            assert_eq!(composer.title(), "Not Yet");
        }
        other => panic!("expected the composer, got {:?}", other),
    }
    // the root is the front page, which nobody has written yet
    match lookup.lookup(&state, "/", None).unwrap() {
        Some(Resource::NewArticle(composer)) => assert_eq!(composer.slug, Some(String::new())),
        other => panic!("expected the composer, got {:?}", other),
    }
}

#[test]
fn root_leads_to_the_front_page_once_it_exists() {
    let mut state = store();
    state.create_article(Some(String::new()), "Home".to_owned(), "b".to_owned(), None, 9).unwrap();
    let lookup = dispatcher();
    assert!(matches!(
        lookup.lookup(&state, "/", None),
        Ok(Some(Resource::Article { article_id: 3, revision: 1, edit: false }))
    ));
}

#[test]
fn article_path_with_more_segments_leads_nowhere() {
    let state = store();
    let lookup = dispatcher();
    assert!(matches!(lookup.lookup(&state, "/hello-world/anything", None), Ok(None)));
    assert!(matches!(lookup.lookup(&state, "/hello-world/", None), Ok(None)));
    assert!(matches!(lookup.lookup(&state, "/Hello World/x", None), Ok(None)));
    assert!(matches!(lookup.lookup(&state, "//", None), Ok(None)));
}

#[test]
fn malformed_percent_encoding_is_an_error() {
    let state = store();
    let lookup = dispatcher();
    assert!(matches!(lookup.lookup(&state, "/%ff", None), Err(Error::Decode)));
    assert!(matches!(lookup.lookup(&state, "/caf%C3", None), Err(Error::Decode)));
    assert!(matches!(lookup.lookup(&state, "/_%ff", None), Err(Error::Decode)));
    assert!(matches!(lookup.lookup(&state, "/_assets/%ff", None), Err(Error::Decode)));
    // the rest of the path is not decoded
    assert!(matches!(lookup.lookup(&state, "/a/%ff", None), Ok(None)));
}

#[test]
fn reserved_paths_lead_to_system_resources() {
    let state = store();
    let lookup = dispatcher();
    assert!(matches!(lookup.lookup(&state, "/_sitemap", None), Ok(Some(Resource::Sitemap))));
    match lookup.lookup(&state, "/_new", None).unwrap() {
        Some(Resource::NewArticle(composer)) => {
            assert_eq!(composer.slug, None);
            assert_eq!(composer.title(), "");
        }
        other => panic!("expected the composer, got {:?}", other),
    }
    match lookup.lookup(&state, "/_changes", Some("after=3&limit=10")).unwrap() {
        Some(Resource::Changes { query }) => assert_eq!(query, "after=3&limit=10"),
        other => panic!("expected the feed, got {:?}", other),
    }
    match lookup.lookup(&state, "/_changes", None).unwrap() {
        Some(Resource::Changes { query }) => assert_eq!(query, ""),
        other => panic!("expected the feed, got {:?}", other),
    }
    // the first segment is decoded before it is compared
    assert!(matches!(lookup.lookup(&state, "/_site%6Dap", None), Ok(Some(Resource::Sitemap))));
}

#[test]
fn unknown_reserved_paths_lead_nowhere() {
    let state = store();
    let lookup = dispatcher();
    for path in [
        "/_",
        "/_unknown",
        "/_Sitemap",
        "/_sitemap/",
        "/_sitemap/x",
        "/_new/x",
        "/_changes/1",
        "/_assets",
        "/_assetsx/style-abc.css",
    ] {
        let found = lookup.lookup(&state, path, None);
        assert!(matches!(found, Ok(None)), "{}: got {:?}", path, found);
    }
}

#[test]
fn reserved_names_are_never_taken_for_slugs() {
    let mut state = SyncState::new();
    state.create_article(None, "sitemap".to_owned(), "b".to_owned(), None, 1).unwrap();
    let lookup = dispatcher();
    assert!(matches!(lookup.lookup(&state, "/_sitemap", None), Ok(Some(Resource::Sitemap))));
    assert!(matches!(
        lookup.lookup(&state, "/sitemap", None),
        Ok(Some(Resource::Article { article_id: 1, revision: 1, edit: false }))
    ));
}

#[test]
fn assets_are_found_by_their_exact_name() {
    let state = store();
    let lookup = dispatcher();
    assert!(matches!(
        lookup.lookup(&state, "/_assets/style-abc.css", None),
        Ok(Some(Resource::Asset { index: 0 }))
    ));
    assert!(matches!(
        lookup.lookup(&state, "/_assets/amatic-sc-v9-latin-regular.woff", None),
        Ok(Some(Resource::Asset { index: 2 }))
    ));
    assert!(matches!(
        lookup.lookup(&state, "/_assets/script%2Ddef.js", None),
        Ok(Some(Resource::Asset { index: 1 }))
    ));
    for path in [
        "/_assets/style.css",
        "/_assets/STYLE-ABC.CSS",
        "/_assets/",
        "/_assets/style-abc.css/",
        "/_assets/style-abc.css/x",
        "/_assets/x/style-abc.css",
    ] {
        let found = lookup.lookup(&state, path, None);
        assert!(matches!(found, Ok(None)), "{}: got {:?}", path, found);
    }
    assert!(matches!(lookup.asset_lookup("script-def.js"), Ok(Some(Resource::Asset { index: 1 }))));
}

#[test]
fn later_entry_of_the_asset_table_wins() {
    let lookup = WikiLookup::new(vec!["a.css".to_owned(), "b.css".to_owned(), "a.css".to_owned()]);
    assert!(matches!(lookup.asset_lookup("a.css"), Ok(Some(Resource::Asset { index: 2 }))));
    assert!(matches!(lookup.asset_lookup("b.css"), Ok(Some(Resource::Asset { index: 1 }))));
    let empty = WikiLookup::new(Vec::new());
    assert!(matches!(empty.asset_lookup("a.css"), Ok(None)));
}

#[test]
fn split_one_cuts_at_the_first_slash() {
    assert_eq!(split_one("head/tail/more").unwrap(), ("head".to_owned(), Some("tail/more".to_owned())));
    assert_eq!(split_one("head").unwrap(), ("head".to_owned(), None));
    assert_eq!(split_one("head/").unwrap(), ("head".to_owned(), Some(String::new())));
    assert_eq!(split_one("/tail").unwrap(), (String::new(), Some("tail".to_owned())));
    assert_eq!(split_one("").unwrap(), (String::new(), None));
}

#[test]
fn split_one_decodes_the_head_only() {
    assert_eq!(split_one("foo%20bar%3f").unwrap(), ("foo bar?".to_owned(), None));
    assert_eq!(split_one("a%2Fb/c%20d").unwrap(), ("a/b".to_owned(), Some("c%20d".to_owned())));
    assert_eq!(split_one("caf%C3%A9").unwrap(), ("café".to_owned(), None));
    assert_eq!(split_one("%e2%82%ac").unwrap(), ("€".to_owned(), None));
    // what is no escape stands for itself
    assert_eq!(split_one("100%").unwrap(), ("100%".to_owned(), None));
    assert_eq!(split_one("%zz%4").unwrap(), ("%zz%4".to_owned(), None));
    assert_eq!(split_one("%%41").unwrap(), ("%A".to_owned(), None));
    assert!(matches!(split_one("%80"), Err(Error::Decode)));
    assert!(matches!(split_one("%C3%28"), Err(Error::Decode)));
}

#[test]
fn article_route_says_what_is_left_to_ask() {
    match article_route("some-slug", Some("edit")).unwrap() {
        Route::Lookup { slug, edit } => {
            assert_eq!(slug, "some-slug");
            assert!(edit);
        }
        other => panic!("expected a lookup, got {:?}", other),
    }
    match article_route("Some Slug", None).unwrap() {
        Route::Settled(Some(Resource::ArticleRedirect { slug })) => {
            assert_eq!(slug, "some-slug")
        }
        other => panic!("expected a redirect, got {:?}", other),
    }
    assert!(matches!(article_route("a/b", None), Ok(Route::Settled(None))));
    assert!(matches!(article_route("%ff", None), Err(Error::Decode)));
}

#[test]
fn resolve_lookup_maps_each_outcome() {
    match resolve_lookup("s".to_owned(), true, SlugLookup::Miss) {
        Resource::NewArticle(composer) => assert_eq!(composer.slug, Some("s".to_owned())),
        other => panic!("expected the composer, got {:?}", other),
    }
    assert!(matches!(
        resolve_lookup("s".to_owned(), true, SlugLookup::Hit { article_id: 4, revision: 7 }),
        Resource::Article { article_id: 4, revision: 7, edit: true }
    ));
    match resolve_lookup("s".to_owned(), true, SlugLookup::Redirect("t".to_owned())) {
        Resource::ArticleRedirect { slug } => assert_eq!(slug, "t"),
        other => panic!("expected a redirect, got {:?}", other),
    }
}

#[test]
fn title_is_proposed_from_the_slug() {
    assert_eq!(title_from_slug("hello-world"), "Hello World");
    assert_eq!(title_from_slug("a-tale-of-two-cities"), "A Tale of Two Cities");
    assert_eq!(title_from_slug(""), "");
    assert_eq!(NewArticleResource::new(Some("not-yet".to_owned())).title(), "Not Yet");
    assert_eq!(NewArticleResource::new(None).title(), "");
    // what is no slug is proposed as it stands
    assert_eq!(NewArticleResource::new(Some("Not A Slug".to_owned())).title(), "Not A Slug");
    assert_eq!(NewArticleResource::new(Some("(((x".to_owned())).title(), "(((x");
}

#[test]
fn composer_creates_the_article_under_the_requested_slug() {
    let mut state = SyncState::new();
    let composer = NewArticleResource::new(Some("my-page".to_owned()));
    let row = composer
        .create(&mut state, "My Page".to_owned(), "text".to_owned(), None, 5)
        .unwrap();
    assert_eq!(row.slug, "my-page");
    assert_eq!(row.revision, 1);
    let front = NewArticleResource::new(Some(String::new()));
    let row = front.create(&mut state, "Home".to_owned(), "text".to_owned(), None, 6).unwrap();
    assert_eq!(row.slug, "");
    let refused = composer.create(&mut state, String::new(), "text".to_owned(), None, 7);
    assert!(matches!(refused, Err(Error::Validation)));
}
