//! Whole synchronisations against a small server and store.
use std::collections::{HashMap, HashSet};

use papr_sync::data::{
    Contents, FeedTarget, Href, IdList, Item, ItemOrigin, Sub, SubCat, SyncEntry,
};
use papr_sync::http::{Body, Expect, Method, Request};
use papr_sync::item::Rendering;
use papr_sync::settings::{SettingKey, Settings};
use papr_sync::sync::{run_if_connected, sync_now, Report, SyncRun};
use papr_sync::world::{Action, Event, SyncError};

/// A store with a few articles, and a server that answers from plain values.
struct World {
    provider: &'static str,
    connected: bool,
    folders: Vec<String>,
    feeds: Vec<(String, Option<i64>)>,
    queue: Vec<SyncEntry>,
    by_url: HashMap<String, i64>,
    by_remote: HashMap<String, i64>,
    by_guid: HashMap<(i64, String), i64>,
    pending: HashSet<i64>,
    states: HashMap<i64, (bool, bool)>,
    tail: Option<usize>,
    sent: Vec<String>,
    /// Requests whose address ends so are refused.
    refuse: &'static str,
    /// Every item comes a second time.
    twice: bool,
    /// The tail sweep's unread addresses.
    unread_urls: Vec<String>,
}

const READ: &str = "user/7/state/com.google/read";

fn world(provider: &'static str) -> World {
    World {
        provider,
        connected: true,
        folders: Vec::new(),
        feeds: vec![("https://local.example".to_string(), None)],
        queue: Vec::new(),
        by_url: HashMap::from([("u1".to_string(), 1), ("u2".to_string(), 2), ("u9".to_string(), 9)]),
        by_remote: HashMap::new(),
        by_guid: HashMap::new(),
        pending: HashSet::from([2]),
        states: HashMap::from([(1, (false, true)), (2, (true, true)), (9, (false, true))]),
        tail: Some(3),
        sent: Vec::new(),
        refuse: "nothing",
        twice: false,
        unread_urls: Vec::new(),
    }
}

fn item(id: &str, url: &str, tags: &[&str]) -> Item {
    Item {
        id: id.to_string(),
        title: None,
        author: None,
        published: None,
        summary: None,
        content: None,
        origin: Some(ItemOrigin { stream_id: "feed/1".to_string() }),
        categories: tags.iter().map(|t| t.to_string()).collect(),
        canonical: vec![Href { href: url.to_string() }],
        alternate: vec![],
    }
}

fn items() -> Vec<Item> {
    vec![item("i1", "u1", &[READ]), item("i2", "u2", &[]), item("i3", "u3", &[])]
}

impl World {
    fn settings(&self) -> Settings {
        let mut s = Settings::new();
        if self.connected {
            s.set(SettingKey::Url, Some("https://s.example".to_string()));
            s.set(SettingKey::User, Some("ada".to_string()));
            s.set(SettingKey::Auth, Some("auth".to_string()));
            s.set(SettingKey::Provider, Some(self.provider.to_string()));
        }
        s
    }

    fn answer(&mut self, request: Request) -> Event {
        let first = match &request.body {
            Body::Form(form) => form[0].1.clone(),
            _ => String::new(),
        };
        assert_eq!(
            request.headers,
            vec![("Authorization".to_string(), "GoogleLogin auth=auth".to_string())]
        );
        let path = request.url.rsplit('/').next().unwrap().to_string();
        self.sent.push(format!("{path} {first}").trim().to_string());
        if request.url.ends_with(self.refuse) {
            return Event::Refused(500);
        }
        match request.expect {
            Expect::Login | Expect::Token => Event::Text("token".to_string()),
            Expect::Done => Event::Accepted,
            Expect::Subscriptions => Event::Subscriptions(vec![Sub {
                id: "feed/1".to_string(),
                url: Some("https://server.example".to_string()),
                title: Some("Server".to_string()),
                categories: vec![SubCat { id: String::new(), label: Some("Tech".to_string()) }],
            }]),
            Expect::Ids => {
                assert_eq!(request.method, Method::Get);
                Event::Ids(IdList {
                    item_refs: vec!["i1".to_string(), "i2".to_string(), "i3".to_string()],
                    continuation: None,
                })
            }
            Expect::Contents => {
                let mut all = items();
                if self.twice {
                    all.extend(items());
                }
                Event::Contents(Contents { items: all, continuation: None })
            }
            Expect::Categories => Event::Categories(vec![]),
        }
    }

    fn perform(&mut self, action: Action) -> Event {
        match action {
            Action::ReadSettings => Event::Settings(self.settings()),
            Action::WriteSettings(_) => Event::Stored,
            Action::Call(request) => self.answer(request),
            Action::TakeQueue => {
                let known: Vec<i64> = self.by_remote.values().copied().collect();
                let (now, later): (Vec<SyncEntry>, Vec<SyncEntry>) =
                    self.queue.drain(..).partition(|e| known.contains(&e.article_id));
                self.queue = later;
                Event::Queue(now)
            }
            Action::Requeue(entries) => {
                self.queue.extend(entries);
                Event::Stored
            }
            Action::EnsureFolder(name) => {
                self.folders.push(name);
                Event::Folder(self.folders.len() as i64)
            }
            Action::FindFeed(url) => Event::Feed(
                self.feeds.iter().position(|(u, _)| *u == url).map(|i| i as i64),
            ),
            Action::InsertFeed { url, folder, .. } => {
                self.feeds.push((url, folder));
                Event::NewFeed(self.feeds.len() as i64 - 1)
            }
            Action::ReadFeedFolder(feed) => Event::FeedFolder(self.feeds[feed as usize].1),
            Action::MoveFeed { feed, folder } => {
                self.feeds[feed as usize].1 = folder;
                Event::Stored
            }
            Action::ListFeeds => Event::Feeds(
                self.feeds
                    .iter()
                    .map(|(url, _)| FeedTarget { url: url.clone(), folder: Some("Home".to_string()) })
                    .collect(),
            ),
            Action::FindByUrl(url) => Event::Article(self.by_url.get(&url).copied()),
            Action::FindByRemoteId(id) => Event::Article(self.by_remote.get(&id).copied()),
            Action::FindByGuid { feed, guid } => {
                Event::Article(self.by_guid.get(&(feed, guid)).copied())
            }
            Action::Render(_) => Event::Rendered(Rendering {
                body_text: String::new(),
                summary_text: String::new(),
                published: None,
            }),
            Action::StoreArticle { feed, new } => {
                self.by_guid.insert((feed, new.guid), 3);
                self.by_url.insert(new.url.unwrap(), 3);
                self.states.insert(3, (false, false));
                Event::Imported(true)
            }
            Action::SetRemoteId { article, remote_id } => {
                self.by_remote.insert(remote_id, article);
                Event::Stored
            }
            Action::AskPending(article) => Event::Pending(self.pending.contains(&article)),
            Action::SetState { article, read, starred } => {
                self.states.insert(article, (read, starred));
                Event::Stored
            }
            Action::ClearQueue(article) => {
                self.queue.retain(|e| e.article_id != article);
                Event::Stored
            }
            Action::ReconcileTail { feeds, unread_urls, .. } => {
                assert_eq!(feeds, vec!["https://server.example"]);
                self.unread_urls = unread_urls;
                match self.tail {
                    Some(n) => Event::Tail(n),
                    None => Event::Failed,
                }
            }
        }
    }

    fn run(&mut self, mut run: SyncRun) -> Result<Option<Report>, SyncError> {
        while let Some(action) = run.action() {
            let event = self.perform(action);
            run = run.accept(event);
        }
        match run {
            SyncRun::Done(result) => result,
            _ => panic!("stuck"),
        }
    }
}

#[test]
fn a_whole_sync_with_miniflux() {
    let mut w = world("miniflux");
    w.queue.push(SyncEntry {
        article_id: 2,
        remote_id: "i2".to_string(),
        field: "starred".to_string(),
        value: true,
    });
    let report = w.run(sync_now()).unwrap().unwrap();
    assert_eq!(
        report,
        Report { pushed_before: 0, applied: 2, inserted: 1, tail: 3, pushed_after: 1 }
    );
    assert_eq!(report.reconciled(), Some(5));
    // The server's state is applied to what it lists, a pending change stays as
    // it is, and an article that the server does not mention is left alone.
    assert_eq!(w.states[&1], (true, false));
    assert_eq!(w.states[&2], (true, true));
    assert_eq!(w.states[&3], (false, false));
    assert_eq!(w.states[&9], (false, true));
    assert_eq!(w.unread_urls, vec!["u1", "u2", "u3"]);
    assert_eq!(w.folders, vec!["Tech"]);
    assert_eq!(w.feeds.len(), 2);
    assert_eq!(
        w.sent,
        vec![
            "token",
            "list?output=json",
            "edit subscribe",
            "edit edit",
            "ids",
            "contents token",
            "ids",
            "ids",
            "contents token",
            "contents token",
            "edit-tag i2",
        ]
    );
}

#[test]
fn a_second_sync_imports_nothing_again() {
    let mut w = world("freshrss");
    let first = w.run(sync_now()).unwrap().unwrap();
    assert_eq!((first.inserted, first.applied), (1, 2));
    let second = w.run(sync_now()).unwrap().unwrap();
    assert_eq!((second.inserted, second.applied), (0, 2));
    assert_eq!(w.feeds.len(), 2);
}

#[test]
fn side_failures_do_not_fail_a_sync() {
    let mut w = world("freshrss");
    w.refuse = "subscription/edit";
    assert!(w.run(sync_now()).is_ok());

    // The state sets cannot be had: the sweep is left out.
    let mut run = sync_now();
    let mut w = world("miniflux");
    let mut swept = false;
    while let Some(action) = run.action() {
        let in_states = matches!(&run, SyncRun::Working(work)
            if matches!(work.stage, papr_sync::sync::Stage::States(_)));
        swept |= matches!(action, Action::ReconcileTail { .. });
        let event = if in_states { Event::Unreachable } else { w.perform(action) };
        run = run.accept(event);
    }
    assert!(!swept);
    match run {
        SyncRun::Done(Ok(Some(report))) => assert_eq!((report.applied, report.tail), (2, 0)),
        _ => panic!("failed"),
    }
}

#[test]
fn main_failures_end_a_sync() {
    for refuse in ["subscription/list?output=json", "stream/items/ids"] {
        let mut w = world("miniflux");
        w.refuse = refuse;
        assert_eq!(w.run(sync_now()), Err(SyncError::Outside));
    }
    let mut w = world("miniflux");
    w.refuse = "token";
    assert_eq!(w.run(sync_now()), Err(SyncError::LoginFailed));
    let mut w = world("miniflux");
    w.tail = None;
    assert_eq!(w.run(sync_now()), Err(SyncError::Outside));
}

#[test]
fn a_sync_needs_a_connection() {
    let mut w = world("miniflux");
    w.connected = false;
    assert_eq!(w.run(sync_now()), Err(SyncError::NotConnected));
    assert_eq!(w.run(run_if_connected()), Ok(None));
    w.connected = true;
    assert_eq!(w.run(run_if_connected()).unwrap().unwrap().applied, 2);
}

#[test]
fn the_reconciled_count_is_checked() {
    let report = |applied: usize, tail: usize| Report {
        pushed_before: 0,
        applied,
        inserted: 0,
        tail,
        pushed_after: 0,
    };
    assert_eq!(report(2, 3).reconciled(), Some(5));
    assert_eq!(report(usize::MAX, 0).reconciled(), Some(usize::MAX));
    assert_eq!(report(usize::MAX, 1).reconciled(), None);
}

#[test]
fn a_second_sync_with_miniflux_imports_nothing_again() {
    let mut w = world("miniflux");
    let first = w.run(sync_now()).unwrap().unwrap();
    assert_eq!((first.inserted, first.applied), (1, 2));
    // Even where the new article's address is forgotten, its id still finds it.
    w.by_url.remove("u3");
    let second = w.run(sync_now()).unwrap().unwrap();
    assert_eq!((second.inserted, second.applied), (0, 2));
}

#[test]
fn a_freshrss_id_of_another_article_changes_nothing_of_it() {
    let mut w = world("freshrss");
    // An id that once belonged to article 9 now comes with an unknown address.
    w.by_remote.insert("i3".to_string(), 9);
    let report = w.run(sync_now()).unwrap().unwrap();
    assert_eq!(report.inserted, 1);
    assert_eq!(w.states[&9], (false, true));
    assert_eq!(w.states[&3], (false, false));
    assert_eq!(w.by_remote["i3"], 3);
}

#[test]
fn items_that_come_twice_are_imported_and_counted_once() {
    for provider in ["miniflux", "freshrss"] {
        let mut w = world(provider);
        w.twice = true;
        let first = w.run(sync_now()).unwrap().unwrap();
        assert_eq!((first.inserted, first.applied), (1, 2));
        let second = w.run(sync_now()).unwrap().unwrap();
        assert_eq!((second.inserted, second.applied), (0, 2));
        assert_eq!(w.states[&9], (false, true));
    }
}
