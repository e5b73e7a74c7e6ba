//! The passes of a synchronisation: pushing changes, aligning feeds, applying
//! articles.
use std::collections::HashSet;

use papr_sync::data::{FeedTarget, Href, Item, ItemOrigin, Sub, SubCat, SyncEntry};
use papr_sync::feeds::{server_urls, FeedIndex, FeedPass, FeedPush, FeedStage};
use papr_sync::greader::Session;
use papr_sync::http::{Body, Request};
use papr_sync::item::Rendering;
use papr_sync::provider::Provider;
use papr_sync::queue::PushPass;
use papr_sync::reconcile::{ItemPass, ItemStage};
use papr_sync::world::{Action, Event, SyncError};

fn session() -> Session {
    Session {
        base: "https://s.example".to_string(),
        auth: "auth".to_string(),
        token: "token".to_string(),
    }
}

fn entry(id: i64, field: &str, value: bool) -> SyncEntry {
    SyncEntry {
        article_id: id,
        remote_id: format!("item{id}"),
        field: field.to_string(),
        value,
    }
}

fn form(request: &Request) -> Vec<(&str, &str)> {
    match &request.body {
        Body::Form(form) => form.iter().map(|(k, v)| (k.as_str(), v.as_str())).collect(),
        other => panic!("{other:?}"),
    }
}

fn ids(entries: &[SyncEntry]) -> Vec<i64> {
    entries.iter().map(|e| e.article_id).collect()
}

#[test]
fn changes_that_fail_go_back_into_the_queue() {
    let s = session();
    let mut pass = PushPass::Taking.accept(Event::Queue(vec![
        entry(1, "read", true),
        entry(2, "starred", false),
        entry(3, "read", false),
        entry(4, "starred", true),
    ]));
    let mut sent = Vec::new();
    for reply in [Event::Accepted, Event::Refused(500), Event::Accepted, Event::Unreachable] {
        match pass.action(&s) {
            Some(Action::Call(request)) => sent.push(form(&request)[0].1.to_string()),
            other => panic!("{other:?}"),
        }
        pass = pass.accept(reply);
    }
    assert_eq!(sent, vec!["item1", "item2", "item3", "item4"]);
    match pass.action(&s) {
        Some(Action::Requeue(entries)) => assert_eq!(ids(&entries), vec![2, 4]),
        other => panic!("{other:?}"),
    }
    // A store that cannot take them back does not fail the pass.
    match pass.accept(Event::Failed) {
        PushPass::Done { pushed, failed } => {
            assert_eq!(ids(&pushed), vec![1, 3]);
            assert_eq!(ids(&failed), vec![2, 4]);
        }
        other => panic!("{other:?}"),
    }
}

#[test]
fn an_empty_or_accepted_queue_puts_nothing_back() {
    assert!(matches!(
        PushPass::Taking.accept(Event::Queue(vec![])),
        PushPass::Done { pushed, .. } if pushed.is_empty()
    ));
    let pass = PushPass::Taking
        .accept(Event::Queue(vec![entry(1, "read", true)]))
        .accept(Event::Accepted);
    assert!(matches!(pass, PushPass::Done { pushed, failed } if pushed.len() == 1 && failed.is_empty()));
    assert!(matches!(
        PushPass::Taking.accept(Event::Failed),
        PushPass::Broken(SyncError::Outside)
    ));
}

fn sub(id: &str, url: Option<&str>, title: Option<&str>, label: Option<&str>) -> Sub {
    Sub {
        id: id.to_string(),
        url: url.map(str::to_string),
        title: title.map(str::to_string),
        categories: label
            .map(|l| SubCat { id: String::new(), label: Some(l.to_string()) })
            .into_iter()
            .collect(),
    }
}

#[test]
fn server_feeds_are_added_and_filed() {
    let pass = FeedPass::new(vec![
        sub("feed/1", Some(" https://a.example "), None, Some("Tech")),
        sub("feed/2", Some("   "), None, Some("Empty")),
        sub("feed/3", None, None, None),
        sub("", Some("https://b.example"), Some("B"), None),
        sub("feed/5", Some("https://c.example"), None, None),
    ]);
    assert!(matches!(pass.action(), Some(Action::EnsureFolder(name)) if name == "Tech"));
    let pass = pass.accept(Event::Folder(10));
    assert!(matches!(pass.action(), Some(Action::FindFeed(url)) if url == "https://a.example"));
    let pass = pass.accept(Event::Feed(None));
    match pass.action() {
        Some(Action::InsertFeed { url, title, folder }) => {
            assert_eq!(url, "https://a.example");
            assert_eq!(title, "https://a.example");
            assert_eq!(folder, Some(10));
        }
        other => panic!("{other:?}"),
    }
    let pass = pass.accept(Event::NewFeed(100));
    // A subscription without an address still has its folder made.
    assert!(matches!(pass.action(), Some(Action::EnsureFolder(name)) if name == "Empty"));
    let pass = pass.accept(Event::Folder(11));
    assert!(matches!(pass.action(), Some(Action::FindFeed(url)) if url == "https://b.example"));
    let pass = pass.accept(Event::Feed(Some(200)));
    assert!(matches!(pass.action(), Some(Action::ReadFeedFolder(200))));
    let pass = pass.accept(Event::FeedFolder(Some(5)));
    assert!(matches!(pass.action(), Some(Action::MoveFeed { feed: 200, folder: None })));
    let pass = pass.accept(Event::Stored);
    let pass = pass.accept(Event::Feed(Some(300))).accept(Event::FeedFolder(None));
    assert!(pass.action().is_none());
    assert!(matches!(pass.stage, FeedStage::Finished));
    assert_eq!(pass.feeds.find("feed/1"), Some(100));
    assert_eq!(pass.feeds.find("feed/https://a.example"), Some(100));
    assert_eq!(pass.feeds.find("feed/https://b.example"), Some(200));
    assert_eq!(pass.feeds.find("feed/5"), Some(300));
    assert_eq!(pass.feeds.find("feed/3"), None);
}

#[test]
fn a_store_failure_ends_the_feed_pass() {
    let pass = FeedPass::new(vec![sub("x", Some("u"), None, None)]).accept(Event::Failed);
    assert!(matches!(pass.stage, FeedStage::Broken(SyncError::Outside)));
    assert!(matches!(FeedPass::new(vec![]).stage, FeedStage::Finished));
}

#[test]
fn listed_addresses_leave_out_empty_ones() {
    let subs = vec![
        sub("1", Some("a"), None, None),
        sub("2", Some(""), None, None),
        sub("3", None, None, None),
        sub("4", Some(" b "), None, None),
    ];
    assert_eq!(server_urls(&subs), vec!["a", " b "]);
}

#[test]
fn local_feeds_are_pushed_with_their_folder() {
    let s = session();
    let target = |url: &str, folder: Option<&str>| FeedTarget {
        url: url.to_string(),
        folder: folder.map(str::to_string),
    };
    let mut push = FeedPush::new(
        vec![
            target("a", Some("Tech")),
            target("known", Some("Tech")),
            target("b", None),
            target("c", Some("News")),
            target("d", Some("News")),
        ],
        &["known".to_string()],
    );
    let mut sent = Vec::new();
    for reply in [
        Event::Accepted,
        Event::Refused(500),
        Event::Accepted,
        Event::Unreachable,
        Event::Accepted,
        Event::Accepted,
    ] {
        match push.action(&s) {
            Some(Action::Call(request)) => {
                let fields = form(&request);
                sent.push((fields[0].1.to_string(), fields[1].1.to_string()));
            }
            other => panic!("{other:?}"),
        }
        push = push.accept(reply);
    }
    assert!(push.action(&s).is_none());
    let sent: Vec<(&str, &str)> = sent.iter().map(|(a, b)| (a.as_str(), b.as_str())).collect();
    assert_eq!(
        sent,
        vec![
            ("subscribe", "feed/a"),
            ("edit", "feed/a"),
            ("subscribe", "feed/b"),
            ("subscribe", "feed/c"),
            ("subscribe", "feed/d"),
            ("edit", "feed/d"),
        ]
    );
}

fn item(id: &str, urls: &[&str], tags: &[&str], stream: Option<&str>) -> Item {
    Item {
        id: id.to_string(),
        title: None,
        author: None,
        published: None,
        summary: None,
        content: None,
        origin: stream.map(|s| ItemOrigin { stream_id: s.to_string() }),
        categories: tags.iter().map(|t| t.to_string()).collect(),
        canonical: urls.iter().map(|u| Href { href: u.to_string() }).collect(),
        alternate: vec![],
    }
}

fn feeds() -> FeedIndex {
    let mut feeds = FeedIndex::new();
    feeds.bind("feed/1".to_string(), 100);
    feeds
}

const READ: &str = "user/7/state/com.google/read";
const STARRED: &str = "user/7/state/com.google/starred";

#[test]
fn a_found_article_gets_the_server_state() {
    let pass = ItemPass::new(Provider::Miniflux, vec![item("i", &["a", "b"], &[READ, STARRED], None)], feeds());
    assert!(matches!(pass.action(), Some(Action::FindByUrl(u)) if u == "a"));
    let pass = pass.accept(Event::Article(None));
    assert!(matches!(pass.action(), Some(Action::FindByUrl(u)) if u == "b"));
    let pass = pass.accept(Event::Article(Some(9)));
    assert!(matches!(
        pass.action(),
        Some(Action::SetRemoteId { article: 9, remote_id }) if remote_id == "i"
    ));
    let pass = pass.accept(Event::Stored);
    assert!(matches!(pass.action(), Some(Action::AskPending(9))));
    let pass = pass.accept(Event::Pending(false));
    assert!(matches!(
        pass.action(),
        Some(Action::SetState { article: 9, read: true, starred: true })
    ));
    let pass = pass.accept(Event::Stored);
    assert!(matches!(pass.action(), Some(Action::ClearQueue(9))));
    let pass = pass.accept(Event::Stored);
    assert!(matches!(pass.stage, ItemStage::Finished));
    assert_eq!(pass.applied, HashSet::from([9]));
    assert!(pass.inserted.is_empty());
}

#[test]
fn a_pending_local_change_is_not_overwritten() {
    let pass = ItemPass::new(
        Provider::Miniflux,
        vec![item("i", &["a"], &[READ], None), item("j", &["b"], &[], None)],
        feeds(),
    )
    .accept(Event::Article(Some(9)))
    .accept(Event::Stored)
    .accept(Event::Pending(true));
    assert!(matches!(pass.action(), Some(Action::FindByUrl(u)) if u == "b"));
    assert!(pass.applied.is_empty());
}

#[test]
fn lookups_come_in_order_before_an_import() {
    let pass = ItemPass::new(Provider::Miniflux, vec![item("i", &["a"], &[STARRED], Some("feed/1"))], feeds());
    let pass = pass.accept(Event::Article(None));
    assert!(matches!(pass.action(), Some(Action::FindByRemoteId(id)) if id == "i"));
    let pass = pass.accept(Event::Article(None));
    assert!(matches!(
        pass.action(),
        Some(Action::FindByGuid { feed: 100, guid }) if guid == "i"
    ));
    let pass = pass.accept(Event::Article(None));
    assert!(matches!(pass.action(), Some(Action::Render(_))));
    let pass = pass.accept(Event::Rendered(Rendering {
        body_text: String::new(),
        summary_text: String::new(),
        published: None,
    }));
    match pass.action() {
        Some(Action::StoreArticle { feed, new }) => {
            assert_eq!(feed, 100);
            assert_eq!(new.guid, "i");
            assert_eq!(new.url.as_deref(), Some("a"));
            assert_eq!(new.title, "Untitled");
        }
        other => panic!("{other:?}"),
    }
    let pass = pass.accept(Event::Imported(true));
    assert_eq!(pass.inserted, vec![0]);
    assert!(matches!(
        pass.action(),
        Some(Action::FindByGuid { feed: 100, guid }) if guid == "i"
    ));
    let pass = pass
        .accept(Event::Article(Some(4)))
        .accept(Event::Stored)
        .accept(Event::Pending(false));
    assert!(matches!(
        pass.action(),
        Some(Action::SetState { article: 4, read: false, starred: true })
    ));
}

#[test]
fn read_or_known_imports_do_not_count_as_new() {
    let import = |tags: &[&str], new: bool| {
        let pass = ItemPass::new(Provider::Miniflux, vec![item("i", &[], tags, Some("feed/1"))], feeds());
        assert!(matches!(pass.action(), Some(Action::FindByRemoteId(_))));
        let pass = pass
            .accept(Event::Article(None))
            .accept(Event::Article(None))
            .accept(Event::Rendered(Rendering {
                body_text: String::new(),
                summary_text: String::new(),
                published: None,
            }))
            .accept(Event::Imported(new))
            .accept(Event::Article(None));
        assert!(matches!(pass.stage, ItemStage::Finished));
        assert!(pass.applied.is_empty());
        pass.inserted.len()
    };
    assert_eq!(import(&[], true), 1);
    assert_eq!(import(&[READ], true), 0);
    assert_eq!(import(&[], false), 0);
}

#[test]
fn an_item_of_no_known_feed_is_passed_over() {
    let pass = ItemPass::new(
        Provider::Miniflux,
        vec![item("i", &[], &[], Some("feed/9")), item("j", &[], &[], None)],
        feeds(),
    )
    .accept(Event::Article(None));
    assert!(matches!(pass.action(), Some(Action::FindByRemoteId(id)) if id == "j"));
    let pass = pass.accept(Event::Article(None));
    assert!(matches!(pass.stage, ItemStage::Finished));
}

#[test]
fn a_store_failure_ends_the_item_pass() {
    let pass = ItemPass::new(Provider::Miniflux, vec![item("i", &["a"], &[], None)], feeds()).accept(Event::Failed);
    assert!(matches!(pass.stage, ItemStage::Broken(SyncError::Outside)));
    assert!(pass.action().is_none());
    assert!(matches!(ItemPass::new(Provider::Miniflux, vec![], feeds()).stage, ItemStage::Finished));
}

#[test]
fn freshrss_items_are_matched_by_address_alone() {
    // Unknown addresses lead straight to the import; the guid is asked for only to
    // locate the article that was stored.
    let pass = ItemPass::new(
        Provider::FreshRss,
        vec![
            item("i", &["a", "b"], &[READ], Some("feed/1")),
            item("j", &[], &[], Some("feed/9")),
            item("k", &["c"], &[], None),
            item("l", &[], &[], None),
            item("m", &[], &[], Some("feed/1")),
        ],
        feeds(),
    );
    assert!(matches!(pass.action(), Some(Action::FindByUrl(u)) if u == "a"));
    let pass = pass.accept(Event::Article(None)).accept(Event::Article(None));
    assert!(matches!(pass.action(), Some(Action::Render(_))));
    let pass = pass.accept(Event::Rendered(Rendering {
        body_text: String::new(),
        summary_text: String::new(),
        published: None,
    }));
    assert!(matches!(pass.action(), Some(Action::StoreArticle { feed: 100, .. })));
    let pass = pass.accept(Event::Imported(true));
    assert!(matches!(
        pass.action(),
        Some(Action::FindByGuid { feed: 100, guid }) if guid == "i"
    ));
    // Items of no known feed are passed over, with or without an address.
    let pass = pass.accept(Event::Article(None));
    assert!(matches!(pass.action(), Some(Action::FindByUrl(u)) if u == "c"));
    let pass = pass.accept(Event::Article(None));
    assert_eq!(pass.at, 4);
    assert!(matches!(pass.action(), Some(Action::Render(_))));
    let none = ItemPass::new(Provider::FreshRss, vec![item("l", &[], &[], None)], feeds());
    assert!(matches!(none.stage, ItemStage::Finished));
    assert!(none.action().is_none());
}

#[test]
fn an_article_counts_once_however_often_it_is_pulled() {
    let mut pass = ItemPass::new(
        Provider::FreshRss,
        vec![item("i", &["a"], &[STARRED], None), item("j", &["a"], &[STARRED], None)],
        feeds(),
    );
    for _ in 0..2 {
        pass = pass
            .accept(Event::Article(Some(7)))
            .accept(Event::Stored)
            .accept(Event::Pending(false))
            .accept(Event::Stored)
            .accept(Event::Stored);
    }
    assert!(matches!(pass.stage, ItemStage::Finished));
    assert_eq!(pass.applied, HashSet::from([7]));
}

#[test]
fn the_last_report_of_an_article_counts() {
    let mut pass = ItemPass::new(
        Provider::Miniflux,
        vec![item("i", &["a"], &[READ], None), item("j", &["a"], &[STARRED], None)],
        feeds(),
    );
    let mut states = Vec::new();
    while let Some(action) = pass.action() {
        let event = match action {
            Action::FindByUrl(_) => Event::Article(Some(7)),
            Action::AskPending(_) => Event::Pending(false),
            Action::SetState { article, read, starred } => {
                states.push((article, read, starred));
                Event::Stored
            }
            _ => Event::Stored,
        };
        pass = pass.accept(event);
    }
    assert_eq!(states, vec![(7, true, false), (7, false, true)]);
}
