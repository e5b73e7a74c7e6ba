//! Aligning the subscription lists: server feeds that are unknown here are
//! added, local feeds that the server lacks are subscribed there.
use vstd::hash_map::StringHashMap;
use vstd::prelude::*;

use crate::data::{FeedTarget, FeedTargetView, Sub, SubCat, SubCatView, SubView};
use crate::greader::{Session, SessionView};
use crate::subscriptions::{feeds_to_push, law_selects_local_only, local_only};
use crate::tags::{stream_of, subscription_stream};
use crate::text;
use crate::world::{Action, ActionView, Event, EventView, SyncError};

verus! {

/// Local feeds by the server's stream id.
pub struct FeedIndex {
    map: StringHashMap<i64>,
}

impl View for FeedIndex {
    type V = Map<Seq<char>, i64>;

    closed spec fn view(&self) -> Map<Seq<char>, i64> {
        self.map@
    }
}

impl FeedIndex {
    pub fn new() -> (r: Self)
        ensures
            r@ == Map::<Seq<char>, i64>::empty(),
    {
        FeedIndex { map: StringHashMap::new() }
    }

    /// Binds a stream id to a feed, in place of the feed it was bound to.
    pub fn bind(&mut self, stream: String, feed: i64)
        ensures
            final(self)@ == old(self)@.insert(stream@, feed),
    {
        self.map.insert(stream, feed);
    }

    /// The feed that a stream id is bound to.
    pub fn find(&self, stream: &str) -> (r: Option<i64>)
        ensures
            r == if self@.contains_key(stream@) {
                Some(self@[stream@])
            } else {
                None
            },
    {
        match self.map.get(stream) {
            Some(feed) => Some(*feed),
            None => None,
        }
    }
}

/// The folder of the first category that stands for one.
pub open spec fn first_folder(categories: Seq<SubCatView>) -> Option<Seq<char>>
    decreases categories.len(),
{
    if categories.len() == 0 {
        None
    } else if categories[0].folder() is Some {
        categories[0].folder()
    } else {
        first_folder(categories.drop_first())
    }
}

fn folder_of(categories: &Vec<SubCat>) -> (r: Option<String>)
    ensures
        r.deep_view() == first_folder(categories.deep_view()),
{
    let ghost all = categories.deep_view();
    assert(all.skip(0) =~= all);
    for i in 0..categories.len()
        invariant
            all == categories.deep_view(),
            first_folder(all) == first_folder(all.skip(i as int)),
    {
        let ghost rest = all.skip(i as int);
        assert(rest[0] == categories@[i as int].deep_view());
        assert(rest.drop_first() =~= all.skip(i + 1));
        let name = categories[i].folder_name();
        if name.is_some() {
            return name;
        }
    }
    None
}

impl SubView {
    /// The address of the feed, unless it is blank.
    pub open spec fn feed_url(self) -> Option<Seq<char>> {
        if self.url is Some && text::trimmed(self.url->0).len() > 0 {
            Some(text::trimmed(self.url->0))
        } else {
            None
        }
    }

    /// The title under which a new feed is added.
    pub open spec fn feed_title(self, url: Seq<char>) -> Seq<char> {
        match self.title {
            Some(title) => title,
            None => url,
        }
    }

    /// Where the pass begins with the subscription, if there is anything to do
    /// for it.
    pub open spec fn first_stage(self) -> Option<FeedStage> {
        if first_folder(self.categories) is Some {
            Some(FeedStage::Filing)
        } else if self.feed_url() is Some {
            Some(FeedStage::Finding { folder: None })
        } else {
            None
        }
    }
}

fn url_of(sub: &Sub) -> (r: Option<String>)
    ensures
        r.deep_view() == sub.deep_view().feed_url(),
{
    match &sub.url {
        Some(url) => {
            let t = text::trim(url.as_str());
            if t.is_empty() {
                None
            } else {
                Some(t.to_owned())
            }
        },
        None => None,
    }
}

/// Where the pass stands with the subscription at hand.
#[derive(Clone, Copy, Debug)]
pub enum FeedStage {
    /// Looking for the folder, or making it.
    Filing,
    /// Looking for the feed.
    Finding { folder: Option<i64> },
    /// Adding the feed.
    Inserting { folder: Option<i64> },
    /// Reading which folder the feed is in.
    Checking { feed: i64, folder: Option<i64> },
    Moving { feed: i64, folder: Option<i64> },
    /// All subscriptions are done.
    Finished,
    Broken(SyncError),
}

/// Adds the server's feeds to the local store, each in its folder, and learns
/// which local feed each stream belongs to.
pub struct FeedPass {
    pub subs: Vec<Sub>,
    pub at: usize,
    pub stage: FeedStage,
    pub feeds: FeedIndex,
}

#[verifier::ext_equal]
pub struct FeedPassView {
    pub subs: Seq<SubView>,
    pub at: nat,
    pub stage: FeedStage,
    pub feeds: Map<Seq<char>, i64>,
}

impl DeepView for FeedPass {
    type V = FeedPassView;

    open spec fn deep_view(&self) -> FeedPassView {
        FeedPassView {
            subs: self.subs.deep_view(),
            at: self.at as nat,
            stage: self.stage,
            feeds: self.feeds@,
        }
    }
}

impl FeedPassView {
    /// Before the first subscription.
    pub open spec fn start(subs: Seq<SubView>) -> FeedPassView {
        (FeedPassView {
            subs,
            at: 0,
            stage: FeedStage::Finished,
            feeds: Map::empty(),
        }).from(0)
    }

    /// On to the first subscription at or after `i` with anything to do.
    pub open spec fn from(self, i: nat) -> FeedPassView
        decreases self.subs.len() - i,
    {
        if i >= self.subs.len() {
            self.in_stage(FeedStage::Finished)
        } else {
            match self.subs[i as int].first_stage() {
                Some(stage) => FeedPassView { at: i, stage, ..self },
                None => self.from(i + 1),
            }
        }
    }

    /// The subscription at hand.
    pub open spec fn sub(self) -> SubView {
        self.subs[self.at as int]
    }

    /// The same in another stage.
    pub open spec fn in_stage(self, stage: FeedStage) -> FeedPassView {
        FeedPassView { stage, ..self }
    }

    /// Ended by an event that the stage has no use for.
    pub open spec fn broken(self, event: EventView) -> FeedPassView {
        self.in_stage(FeedStage::Broken(event.fault()))
    }

    /// With the local feed of the subscription known, on to the next. Both the
    /// server's stream id and the one made of the address are bound to the feed.
    pub open spec fn bound(self, url: Seq<char>, feed: i64) -> FeedPassView {
        (FeedPassView {
            feeds: self.feeds.insert(stream_of(self.sub(), url), feed).insert("feed/"@ + url, feed),
            ..self
        }).from(self.at + 1)
    }

    /// The next action, if there is one.
    pub open spec fn action(self) -> Option<ActionView> {
        if self.at >= self.subs.len() {
            None
        } else {
            let sub = self.sub();
            match self.stage {
                FeedStage::Filing => match first_folder(sub.categories) {
                    Some(name) => Some(ActionView::EnsureFolder(name)),
                    None => None,
                },
                FeedStage::Finding { folder } => match sub.feed_url() {
                    Some(url) => Some(ActionView::FindFeed(url)),
                    None => None,
                },
                FeedStage::Inserting { folder } => match sub.feed_url() {
                    Some(url) => Some(
                        ActionView::InsertFeed { url, title: sub.feed_title(url), folder },
                    ),
                    None => None,
                },
                FeedStage::Checking { feed, folder } => Some(ActionView::ReadFeedFolder(feed)),
                FeedStage::Moving { feed, folder } => Some(ActionView::MoveFeed { feed, folder }),
                FeedStage::Finished => None,
                FeedStage::Broken(_) => None,
            }
        }
    }

    /// The state after an event.
    pub open spec fn accept(self, event: EventView) -> FeedPassView {
        if self.at >= self.subs.len() {
            self
        } else {
            let url = self.sub().feed_url();
            match self.stage {
                FeedStage::Filing => match event {
                    EventView::Folder(folder) => if url is Some {
                        self.in_stage(FeedStage::Finding { folder: Some(folder) })
                    } else {
                        self.from(self.at + 1)
                    },
                    _ => self.broken(event),
                },
                FeedStage::Finding { folder } => match event {
                    EventView::Feed(Some(feed)) => self.in_stage(
                        FeedStage::Checking { feed, folder },
                    ),
                    EventView::Feed(None) => self.in_stage(FeedStage::Inserting { folder }),
                    _ => self.broken(event),
                },
                FeedStage::Inserting { folder } => match event {
                    EventView::NewFeed(feed) => match url {
                        Some(url) => self.bound(url, feed),
                        None => self.from(self.at + 1),
                    },
                    _ => self.broken(event),
                },
                FeedStage::Checking { feed, folder } => match event {
                    EventView::FeedFolder(current) => if current != folder {
                        self.in_stage(FeedStage::Moving { feed, folder })
                    } else {
                        match url {
                            Some(url) => self.bound(url, feed),
                            None => self.from(self.at + 1),
                        }
                    },
                    _ => self.broken(event),
                },
                FeedStage::Moving { feed, folder } => match event {
                    EventView::Stored => match url {
                        Some(url) => self.bound(url, feed),
                        None => self.from(self.at + 1),
                    },
                    _ => self.broken(event),
                },
                FeedStage::Finished => self,
                FeedStage::Broken(_) => self,
            }
        }
    }
}

fn same_folder(a: Option<i64>, b: Option<i64>) -> (r: bool)
    ensures
        r == (a == b),
{
    match (a, b) {
        (Some(x), Some(y)) => x == y,
        (None, None) => true,
        _ => false,
    }
}

impl FeedPass {
    /// Before the first subscription.
    pub fn new(subs: Vec<Sub>) -> (r: Self)
        ensures
            r.deep_view() == FeedPassView::start(subs.deep_view()),
    {
        (FeedPass { subs, at: 0, stage: FeedStage::Finished, feeds: FeedIndex::new() }).from(0)
    }

    fn from(self, i: usize) -> (r: Self)
        ensures
            r.deep_view() == self.deep_view().from(i as nat),
    {
        let mut pass = self;
        let mut k: usize = i;
        while k < pass.subs.len()
            invariant
                pass == self,
                i <= k,
                k == i || k <= self.subs.len(),
                self.deep_view().from(i as nat) == self.deep_view().from(k as nat),
            decreases pass.subs.len() - k,
        {
            let sub = &pass.subs[k];
            assert(sub.deep_view() == self.deep_view().subs[k as int]);
            let stage: Option<FeedStage> = if folder_of(&sub.categories).is_some() {
                Some(FeedStage::Filing)
            } else if url_of(sub).is_some() {
                Some(FeedStage::Finding { folder: None })
            } else {
                None
            };
            if let Some(stage) = stage {
                pass.at = k;
                pass.stage = stage;
                return pass;
            }
            k = k + 1;
        }
        pass.stage = FeedStage::Finished;
        pass
    }

    fn in_stage(self, stage: FeedStage) -> (r: Self)
        ensures
            r.deep_view() == self.deep_view().in_stage(stage),
    {
        FeedPass { subs: self.subs, at: self.at, stage, feeds: self.feeds }
    }

    fn broken(self, event: &Event) -> (r: Self)
        ensures
            r.deep_view() == self.deep_view().broken(event.deep_view()),
    {
        self.in_stage(FeedStage::Broken(event.fault()))
    }

    /// With the local feed of the subscription known, on to the next.
    fn bound(self, feed: i64) -> (r: Self)
        requires
            self.at < self.subs.len(),
        ensures
            r.deep_view() == match self.deep_view().sub().feed_url() {
                Some(url) => self.deep_view().bound(url, feed),
                None => self.deep_view().from(self.at as nat + 1),
            },
    {
        let mut pass = self;
        if let Some(url) = url_of(&pass.subs[pass.at]) {
            let stream = subscription_stream(&pass.subs[pass.at], url.as_str());
            pass.feeds.bind(stream, feed);
            pass.feeds.bind(text::join("feed/", url.as_str()), feed);
        }
        let next: usize = pass.at + 1;
        pass.from(next)
    }

    /// The next action, if the pass is not over.
    pub fn action(&self) -> (r: Option<Action>)
        ensures
            r.deep_view() == self.deep_view().action(),
    {
        if self.at >= self.subs.len() {
            return None;
        }
        let sub = &self.subs[self.at];
        match self.stage {
            FeedStage::Filing => match folder_of(&sub.categories) {
                Some(name) => Some(Action::EnsureFolder(name)),
                None => None,
            },
            FeedStage::Finding { folder } => match url_of(sub) {
                Some(url) => Some(Action::FindFeed(url)),
                None => None,
            },
            FeedStage::Inserting { folder } => match url_of(sub) {
                Some(url) => {
                    let title = match &sub.title {
                        Some(title) => title.clone(),
                        None => url.clone(),
                    };
                    Some(Action::InsertFeed { url, title, folder })
                },
                None => None,
            },
            FeedStage::Checking { feed, folder } => Some(Action::ReadFeedFolder(feed)),
            FeedStage::Moving { feed, folder } => Some(Action::MoveFeed { feed, folder }),
            FeedStage::Finished => None,
            FeedStage::Broken(_) => None,
        }
    }

    /// Takes in how the last action ended.
    pub fn accept(self, event: Event) -> (r: Self)
        ensures
            r.deep_view() == self.deep_view().accept(event.deep_view()),
    {
        if self.at >= self.subs.len() {
            return self;
        }
        match self.stage {
            FeedStage::Filing => match event {
                Event::Folder(folder) => {
                    if url_of(&self.subs[self.at]).is_some() {
                        self.in_stage(FeedStage::Finding { folder: Some(folder) })
                    } else {
                        let next: usize = self.at + 1;
                        self.from(next)
                    }
                },
                _ => self.broken(&event),
            },
            FeedStage::Finding { folder } => match event {
                Event::Feed(Some(feed)) => self.in_stage(FeedStage::Checking { feed, folder }),
                Event::Feed(None) => self.in_stage(FeedStage::Inserting { folder }),
                _ => self.broken(&event),
            },
            FeedStage::Inserting { folder } => match event {
                Event::NewFeed(feed) => self.bound(feed),
                _ => self.broken(&event),
            },
            FeedStage::Checking { feed, folder } => match event {
                Event::FeedFolder(current) => {
                    if same_folder(current, folder) {
                        self.bound(feed)
                    } else {
                        self.in_stage(FeedStage::Moving { feed, folder })
                    }
                },
                _ => self.broken(&event),
            },
            FeedStage::Moving { feed, folder } => match event {
                Event::Stored => self.bound(feed),
                _ => self.broken(&event),
            },
            FeedStage::Finished => self,
            FeedStage::Broken(_) => self,
        }
    }
}

/// The addresses that the server lists, except empty ones.
pub open spec fn listed_urls(subs: Seq<SubView>) -> Seq<Seq<char>>
    decreases subs.len(),
{
    if subs.len() == 0 {
        Seq::empty()
    } else {
        let before = listed_urls(subs.drop_last());
        match subs.last().url {
            Some(url) => if url.len() > 0 {
                before.push(url)
            } else {
                before
            },
            None => before,
        }
    }
}

/// The addresses that the server lists, except empty ones.
pub fn server_urls(subs: &Vec<Sub>) -> (r: Vec<String>)
    ensures
        r.deep_view() == listed_urls(subs.deep_view()),
{
    let ghost all = subs.deep_view();
    let mut r: Vec<String> = Vec::new();
    assert(r.deep_view() =~= listed_urls(all.take(0)));
    for i in 0..subs.len()
        invariant
            all == subs.deep_view(),
            r.deep_view() == listed_urls(all.take(i as int)),
    {
        let ghost had = r.deep_view();
        assert(all.take(i + 1).drop_last() =~= all.take(i as int));
        assert(all.take(i + 1).last() == subs@[i as int].deep_view());
        if let Some(url) = &subs[i].url {
            if !url.as_str().is_empty() {
                r.push(url.clone());
                assert(r.deep_view() =~= had.push(url@));
            }
        }
    }
    assert(all.take(all.len() as int) =~= all);
    r
}

/// The folder of the first local feed with this address.
pub open spec fn target_folder(targets: Seq<FeedTargetView>, url: Seq<char>) -> Option<Seq<char>>
    decreases targets.len(),
{
    if targets.len() == 0 {
        None
    } else if targets[0].url == url {
        targets[0].folder
    } else {
        target_folder(targets.drop_first(), url)
    }
}

fn folder_for(targets: &Vec<FeedTarget>, url: &str) -> (r: Option<String>)
    ensures
        r.deep_view() == target_folder(targets.deep_view(), url@),
{
    let ghost all = targets.deep_view();
    assert(all.skip(0) =~= all);
    for i in 0..targets.len()
        invariant
            all == targets.deep_view(),
            target_folder(all, url@) == target_folder(all.skip(i as int), url@),
    {
        let ghost rest = all.skip(i as int);
        assert(rest[0] == targets@[i as int].deep_view());
        assert(rest.drop_first() =~= all.skip(i + 1));
        if text::same(targets[i].url.as_str(), url) {
            return match &targets[i].folder {
                Some(folder) => Some(folder.clone()),
                None => None,
            };
        }
    }
    None
}

/// The addresses of feeds.
pub open spec fn target_urls(targets: Seq<FeedTargetView>) -> Seq<Seq<char>> {
    targets.map_values(|t: FeedTargetView| t.url)
}

/// Subscribes the server to the local feeds that it lacks, and files each under
/// its folder. What fails is left for the next time.
#[derive(Debug)]
pub struct FeedPush {
    pub targets: Vec<FeedTarget>,
    /// The feeds that the server lacks.
    pub missing: Vec<String>,
    pub next: usize,
    /// The folder to file the feed under, once the server is subscribed to it.
    pub folder: Option<String>,
}

#[verifier::ext_equal]
pub struct FeedPushView {
    pub targets: Seq<FeedTargetView>,
    pub missing: Seq<Seq<char>>,
    pub next: nat,
    pub folder: Option<Seq<char>>,
}

impl DeepView for FeedPush {
    type V = FeedPushView;

    open spec fn deep_view(&self) -> FeedPushView {
        FeedPushView {
            targets: self.targets.deep_view(),
            missing: self.missing.deep_view(),
            next: self.next as nat,
            folder: self.folder.deep_view(),
        }
    }
}

impl FeedPushView {
    /// The state before the first event.
    pub open spec fn start(
        targets: Seq<FeedTargetView>,
        server: Seq<Seq<char>>,
    ) -> FeedPushView {
        FeedPushView {
            targets,
            missing: local_only(target_urls(targets), server),
            next: 0,
            folder: None,
        }
    }

    /// The next action, if there is one.
    pub open spec fn action(self, session: SessionView) -> Option<ActionView> {
        if self.next >= self.missing.len() {
            None
        } else {
            let url = self.missing[self.next as int];
            match self.folder {
                None => Some(ActionView::Call(session.subscribe_call(url))),
                Some(folder) => Some(
                    ActionView::Call(
                        session.folder_call("feed/"@ + url, Seq::empty(), Some(folder)),
                    ),
                ),
            }
        }
    }

    /// The state after an event.
    pub open spec fn accept(self, event: EventView) -> FeedPushView {
        if self.next >= self.missing.len() {
            self
        } else {
            let folder = target_folder(self.targets, self.missing[self.next as int]);
            if self.folder is None && event is Accepted && folder is Some {
                FeedPushView { folder, ..self }
            } else {
                FeedPushView { next: self.next + 1, folder: None, ..self }
            }
        }
    }
}

impl FeedPush {
    /// Before the first feed that the server lacks.
    pub fn new(targets: Vec<FeedTarget>, server: &[String]) -> (r: Self)
        ensures
            r.deep_view() == FeedPushView::start(targets.deep_view(), server.deep_view()),
    {
        let mut urls: Vec<String> = Vec::new();
        for i in 0..targets.len()
            invariant
                urls.deep_view() == target_urls(targets.deep_view()).take(i as int),
        {
            let ghost had = urls.deep_view();
            urls.push(targets[i].url.clone());
            assert(urls.deep_view() =~= had.push(targets@[i as int].url@));
            assert(target_urls(targets.deep_view()).take(i + 1) =~= had.push(
                targets@[i as int].url@,
            ));
        }
        assert(urls.deep_view() =~= target_urls(targets.deep_view()));
        let local = urls.as_slice();
        assert(local.deep_view() =~= urls.deep_view());
        let refs = feeds_to_push(local, server);
        let mut missing: Vec<String> = Vec::new();
        for i in 0..refs.len()
            invariant
                missing.deep_view() == refs.deep_view().take(i as int),
        {
            let ghost had = missing.deep_view();
            missing.push(refs[i].to_owned());
            assert(missing.deep_view() =~= had.push(refs.deep_view()[i as int]));
            assert(refs.deep_view().take(i + 1) =~= had.push(refs.deep_view()[i as int]));
        }
        assert(missing.deep_view() =~= refs.deep_view());
        FeedPush { targets, missing, next: 0, folder: None }
    }

    /// The next action, if the pass is not over.
    pub fn action(&self, session: &Session) -> (r: Option<Action>)
        ensures
            r.deep_view() == self.deep_view().action(session.deep_view()),
    {
        if self.next >= self.missing.len() {
            return None;
        }
        let url = self.missing[self.next].as_str();
        match &self.folder {
            None => Some(Action::Call(session.subscribe_url(url))),
            Some(folder) => {
                let stream = text::join("feed/", url);
                let none: Vec<String> = Vec::new();
                let remove = none.as_slice();
                assert(remove.deep_view() =~= Seq::<Seq<char>>::empty());
                Some(
                    Action::Call(
                        session.set_subscription_folder(
                            stream.as_str(),
                            remove,
                            Some(folder.as_str()),
                        ),
                    ),
                )
            },
        }
    }

    /// Takes in how the last action ended.
    pub fn accept(self, event: Event) -> (r: Self)
        ensures
            r.deep_view() == self.deep_view().accept(event.deep_view()),
    {
        if self.next >= self.missing.len() {
            return self;
        }
        let folder = match (&self.folder, &event) {
            (None, Event::Accepted) => folder_for(&self.targets, self.missing[self.next].as_str()),
            _ => None,
        };
        let next: usize = if folder.is_some() {
            self.next
        } else {
            self.next + 1
        };
        FeedPush { targets: self.targets, missing: self.missing, next, folder }
    }
}

impl FeedPassView {
    /// The state after the events.
    pub open spec fn run(self, events: Seq<EventView>) -> FeedPassView
        decreases events.len(),
    {
        if events.len() == 0 {
            self
        } else {
            self.run(events.drop_last()).accept(events.last())
        }
    }

    /// The streams of the first `n` subscriptions with an address are bound to
    /// feeds.
    pub open spec fn binds(self, n: int) -> bool {
        forall|i: int|
            #![trigger self.subs[i]]
            0 <= i < n ==> (self.subs[i].feed_url() matches Some(url) ==> self.feeds.contains_key(
                stream_of(self.subs[i], url),
            ) && self.feeds.contains_key("feed/"@ + url))
    }

    /// What holds of the pass at every step: the subscriptions before the one at
    /// hand are bound, and the stage fits the subscription.
    pub open spec fn wf(self) -> bool {
        match self.stage {
            FeedStage::Finished => self.binds(self.subs.len() as int),
            FeedStage::Broken(_) => true,
            FeedStage::Filing => self.at < self.subs.len() && self.binds(self.at as int)
                && first_folder(self.sub().categories) is Some,
            _ => self.at < self.subs.len() && self.binds(self.at as int)
                && self.sub().feed_url() is Some,
        }
    }
}

proof fn lemma_from_wf(pass: FeedPassView, i: nat)
    requires
        i <= pass.subs.len(),
        pass.binds(i as int),
    ensures
        pass.from(i).wf(),
        pass.from(i).subs == pass.subs,
    decreases pass.subs.len() - i,
{
    if i < pass.subs.len() {
        let sub = pass.subs[i as int];
        if sub.first_stage() is None {
            assert(pass.binds(i as int + 1));
            lemma_from_wf(pass, i + 1);
        }
    }
}

proof fn lemma_bound_wf(pass: FeedPassView, url: Seq<char>, feed: i64)
    requires
        pass.at < pass.subs.len(),
        pass.binds(pass.at as int),
        pass.sub().feed_url() == Some(url),
    ensures
        pass.bound(url, feed).wf(),
        pass.bound(url, feed).subs == pass.subs,
{
    let with = FeedPassView {
        feeds: pass.feeds.insert(stream_of(pass.sub(), url), feed).insert("feed/"@ + url, feed),
        ..pass
    };
    assert(with.binds(pass.at as int + 1));
    lemma_from_wf(with, pass.at + 1);
}

/// What holds of the pass at the start holds after every event.
pub proof fn lemma_feed_pass_wf(pass: FeedPassView, event: EventView)
    requires
        pass.wf(),
    ensures
        pass.accept(event).wf(),
        pass.accept(event).subs == pass.subs,
{
    if pass.at < pass.subs.len() {
        let url = pass.sub().feed_url();
        match pass.stage {
            FeedStage::Filing => {
                if event is Folder && url is None {
                    assert(pass.binds(pass.at as int + 1));
                    lemma_from_wf(pass, pass.at + 1);
                }
            },
            FeedStage::Inserting { folder } => {
                if let EventView::NewFeed(feed) = event {
                    lemma_bound_wf(pass, url->0, feed);
                }
            },
            FeedStage::Checking { feed, folder } => {
                if event is FeedFolder && event->FeedFolder_0 == folder {
                    lemma_bound_wf(pass, url->0, feed);
                }
            },
            FeedStage::Moving { feed, folder } => {
                if event is Stored {
                    lemma_bound_wf(pass, url->0, feed);
                }
            },
            _ => {},
        }
    }
}

pub proof fn lemma_feed_pass_start(subs: Seq<SubView>)
    ensures
        FeedPassView::start(subs).wf(),
        FeedPassView::start(subs).subs == subs,
{
    let empty = FeedPassView { subs, at: 0, stage: FeedStage::Finished, feeds: Map::empty() };
    assert(empty.binds(0));
    lemma_from_wf(empty, 0);
}

proof fn lemma_feed_run_wf(subs: Seq<SubView>, events: Seq<EventView>)
    ensures
        FeedPassView::start(subs).run(events).wf(),
        FeedPassView::start(subs).run(events).subs == subs,
    decreases events.len(),
{
    if events.len() == 0 {
        lemma_feed_pass_start(subs);
    } else {
        lemma_feed_run_wf(subs, events.drop_last());
        lemma_feed_pass_wf(FeedPassView::start(subs).run(events.drop_last()), events.last());
    }
}

/// Whatever the store answers, the pass names a next action until it is over;
/// and when all subscriptions are done, the stream of each one with an address is
/// bound to a local feed, under the server's id and under the address.
pub proof fn law_streams_bound(subs: Seq<SubView>, events: Seq<EventView>)
    ensures
        ({
            let pass = FeedPassView::start(subs).run(events);
            &&& pass.stage is Finished ==> forall|i: int|
                #![trigger subs[i]]
                0 <= i < subs.len() ==> (subs[i].feed_url() matches Some(url)
                    ==> pass.feeds.contains_key(stream_of(subs[i], url))
                    && pass.feeds.contains_key("feed/"@ + url))
            &&& !(pass.stage is Finished) && !(pass.stage is Broken) ==> pass.action() is Some
        }),
{
    lemma_feed_run_wf(subs, events);
}

/// A feed is moved only when it was found to be in another folder than the
/// server's.
pub proof fn law_moved_only_when_elsewhere(
    pass: FeedPassView,
    event: EventView,
    feed: i64,
    folder: Option<i64>,
)
    requires
        pass.accept(event).action() == Some(ActionView::MoveFeed { feed, folder }),
    ensures
        pass.action() == Some(ActionView::ReadFeedFolder(feed)),
        event is FeedFolder,
        event->FeedFolder_0 != folder,
{
    lemma_from_stage(pass, pass.at + 1);
    if pass.at < pass.subs.len() {
        let url = pass.sub().feed_url();
        if url is Some {
            assert forall|f: i64| #![trigger pass.bound(url->0, f)]
                !(pass.bound(url->0, f).stage is Moving) by {
                let with = FeedPassView {
                    feeds: pass.feeds.insert(stream_of(pass.sub(), url->0), f).insert(
                        "feed/"@ + url->0,
                        f,
                    ),
                    ..pass
                };
                lemma_from_stage(with, pass.at + 1);
            }
        }
    }
}

proof fn lemma_from_stage(pass: FeedPassView, i: nat)
    ensures
        pass.from(i).stage is Finished || pass.from(i).stage is Filing || pass.from(i).stage
            == (FeedStage::Finding { folder: None }),
    decreases pass.subs.len() - i,
{
    if i < pass.subs.len() {
        if pass.subs[i as int].first_stage() is None {
            lemma_from_stage(pass, i + 1);
        }
    }
}

impl FeedPushView {
    /// The state after the events.
    pub open spec fn run(self, events: Seq<EventView>) -> FeedPushView
        decreases events.len(),
    {
        if events.len() == 0 {
            self
        } else {
            self.run(events.drop_last()).accept(events.last())
        }
    }

    /// The feeds that the server has been asked to subscribe to, in order, when
    /// the events have come.
    pub open spec fn asked(self, events: Seq<EventView>) -> Seq<Seq<char>>
        decreases events.len(),
    {
        if events.len() == 0 {
            Seq::empty()
        } else {
            let before = self.run(events.drop_last());
            let asked = self.asked(events.drop_last());
            if before.next < before.missing.len() && before.folder is None {
                asked.push(before.missing[before.next as int])
            } else {
                asked
            }
        }
    }
}

proof fn lemma_asked(
    targets: Seq<FeedTargetView>,
    server: Seq<Seq<char>>,
    events: Seq<EventView>,
)
    ensures
        ({
            let start = FeedPushView::start(targets, server);
            let push = start.run(events);
            &&& push.targets == targets
            &&& push.missing == start.missing
            &&& push.next <= push.missing.len()
            &&& push.folder is Some ==> push.next < push.missing.len()
            &&& start.asked(events) == push.missing.take(
                push.next + if push.folder is Some {
                    1int
                } else {
                    0
                },
            )
        }),
    decreases events.len(),
{
    let start = FeedPushView::start(targets, server);
    if events.len() == 0 {
        assert(start.missing.take(0) =~= Seq::empty());
    } else {
        lemma_asked(targets, server, events.drop_last());
        let before = start.run(events.drop_last());
        if before.next < before.missing.len() && before.folder is None {
            assert(before.missing.take(before.next as int).push(before.missing[before.next as int])
                =~= before.missing.take(before.next as int + 1));
        }
    }
}

/// Whatever the server answers, it is asked to subscribe to each feed that it
/// lacks, once and in order: a feed that fails does not keep the others back.
pub proof fn law_each_missing_feed_pushed(
    targets: Seq<FeedTargetView>,
    server: Seq<Seq<char>>,
    events: Seq<EventView>,
    session: SessionView,
)
    ensures
        ({
            let start = FeedPushView::start(targets, server);
            let push = start.run(events);
            if push.action(session) is None {
                start.asked(events) == local_only(target_urls(targets), server)
            } else {
                start.asked(events).is_prefix_of(local_only(target_urls(targets), server))
            }
        }),
{
    lemma_asked(targets, server, events);
    let start = FeedPushView::start(targets, server);
    let push = start.run(events);
    if push.action(session) is None {
        assert(push.missing.take(push.missing.len() as int) =~= push.missing);
    }
}

/// A feed is filed under its folder only once the server has accepted the
/// subscription to it, and under the folder that it has here.
pub proof fn law_filed_after_subscribing(push: FeedPushView, event: EventView)
    requires
        push.accept(event).folder is Some,
        push.next < push.missing.len(),
    ensures
        push.folder is None,
        event is Accepted,
        push.accept(event).next == push.next,
        push.accept(event).folder == target_folder(push.targets, push.missing[push.next as int]),
{
}

impl FeedPassView {
    /// How far the pass is from its end: the subscriptions that are left, and the
    /// steps that are left for the one at hand.
    pub open spec fn left(self) -> (nat, nat) {
        (
            (self.subs.len() - self.at) as nat,
            match self.stage {
                FeedStage::Filing => 3,
                FeedStage::Finding { folder } => 2,
                FeedStage::Checking { feed, folder } => 1,
                _ => 0,
            },
        )
    }
}

proof fn lemma_from_at(pass: FeedPassView, i: nat)
    ensures
        pass.from(i).stage is Finished || (i <= pass.from(i).at < pass.subs.len()),
        pass.from(i).subs == pass.subs,
    decreases pass.subs.len() - i,
{
    if i < pass.subs.len() {
        if pass.subs[i as int].first_stage() is None {
            lemma_from_at(pass, i + 1);
        }
    }
}

/// Every event brings the pass nearer to its end.
pub proof fn lemma_feed_pass_left(pass: FeedPassView, event: EventView)
    requires
        pass.wf(),
        !(pass.stage is Finished),
        !(pass.stage is Broken),
    ensures
        ({
            let next = pass.accept(event);
            ||| next.stage is Finished
            ||| next.stage is Broken
            ||| next.left().0 < pass.left().0
            ||| next.left().0 == pass.left().0 && next.left().1 < pass.left().1
        }),
{
    lemma_from_at(pass, pass.at + 1);
    let url = pass.sub().feed_url();
    if url is Some {
        assert forall|feed: i64| #![trigger pass.bound(url->0, feed)] {
            let next = pass.bound(url->0, feed);
            next.stage is Finished || (next.subs == pass.subs && pass.at < next.at
                < pass.subs.len())
        } by {
            let with = FeedPassView {
                feeds: pass.feeds.insert(stream_of(pass.sub(), url->0), feed).insert(
                    "feed/"@ + url->0,
                    feed,
                ),
                ..pass
            };
            lemma_from_at(with, pass.at + 1);
        }
    }
}

/// A feed that is added has the address of its subscription, without surrounding
/// white space, and exactly the subscription's title; only for a subscription
/// without a title does the address stand in.
pub proof fn law_added_under_its_title(
    pass: FeedPassView,
    url: Seq<char>,
    title: Seq<char>,
    folder: Option<i64>,
)
    requires
        pass.action() == Some(ActionView::InsertFeed { url, title, folder }),
    ensures
        pass.at < pass.subs.len(),
        pass.subs[pass.at as int].url is Some,
        url == text::trimmed(pass.subs[pass.at as int].url->0),
        url.len() > 0,
        pass.subs[pass.at as int].title is Some ==> Some(title)
            == pass.subs[pass.at as int].title,
        pass.subs[pass.at as int].title is None ==> title == url,
{
}

/// Two subscriptions to one address that differ in their titles are added under
/// different titles.
pub proof fn law_titles_told_apart(
    pass: FeedPassView,
    other: FeedPassView,
    first: Seq<char>,
    second: Seq<char>,
    url: Seq<char>,
    folder: Option<i64>,
)
    requires
        pass.action() == Some(ActionView::InsertFeed { url, title: first, folder }),
        other.action() == Some(ActionView::InsertFeed { url, title: second, folder }),
        pass.subs[pass.at as int].title is Some,
        other.subs[other.at as int].title is Some,
    ensures
        first == second <==> pass.subs[pass.at as int].title
            == other.subs[other.at as int].title,
{
}

/// The folder of a subscription is that of the first of its categories that stands
/// for one.
pub proof fn law_first_folder(categories: Seq<SubCatView>, k: int)
    requires
        0 <= k <= categories.len(),
        forall|j: int| 0 <= j < k ==> (#[trigger] categories[j]).folder() is None,
        k < categories.len() ==> categories[k].folder() is Some,
    ensures
        first_folder(categories) == if k < categories.len() {
            categories[k].folder()
        } else {
            None
        },
    decreases k,
{
    if k > 0 {
        let rest = categories.drop_first();
        assert(categories[0].folder() is None);
        assert forall|j: int| 0 <= j < k - 1 implies (#[trigger] rest[j]).folder() is None by {
            assert(rest[j] == categories[j + 1]);
        }
        law_first_folder(rest, k - 1);
    }
}

/// For a subscription with a folder, the folder is looked up first; the feed is
/// then found or added in it, and one that is found elsewhere is moved to it.
pub proof fn law_feed_filed(
    pass: FeedPassView,
    name: Seq<char>,
    folder: i64,
    feed: i64,
    current: Option<i64>,
)
    requires
        pass.at < pass.subs.len(),
        pass.stage is Filing,
        first_folder(pass.subs[pass.at as int].categories) == Some(name),
        pass.subs[pass.at as int].url is Some,
        text::trimmed(pass.subs[pass.at as int].url->0).len() > 0,
    ensures
        ({
            let sub = pass.subs[pass.at as int];
            let url = text::trimmed(sub.url->0);
            let finding = pass.accept(EventView::Folder(folder));
            let found = finding.accept(EventView::Feed(Some(feed)));
            let checked = found.accept(EventView::FeedFolder(current));
            &&& pass.action() == Some(ActionView::EnsureFolder(name))
            &&& finding.action() == Some(ActionView::FindFeed(url))
            &&& finding.accept(EventView::Feed(None)).action() == Some(
                ActionView::InsertFeed {
                    url,
                    title: if sub.title is Some {
                        sub.title->0
                    } else {
                        url
                    },
                    folder: Some(folder),
                },
            )
            &&& found.action() == Some(ActionView::ReadFeedFolder(feed))
            &&& current != Some(folder) ==> checked.action() == Some(
                ActionView::MoveFeed { feed, folder: Some(folder) },
            )
        }),
{
}

/// A subscription without a folder has its feed found or added outside of every
/// folder, and one that is found in a folder is taken out of it.
pub proof fn law_feed_unfiled(
    pass: FeedPassView,
    feed: i64,
    current: Option<i64>,
)
    requires
        pass.at < pass.subs.len(),
        pass.stage == (FeedStage::Finding { folder: None }),
        pass.subs[pass.at as int].url is Some,
        text::trimmed(pass.subs[pass.at as int].url->0).len() > 0,
    ensures
        ({
            let sub = pass.subs[pass.at as int];
            let url = text::trimmed(sub.url->0);
            let found = pass.accept(EventView::Feed(Some(feed)));
            let checked = found.accept(EventView::FeedFolder(current));
            &&& pass.action() == Some(ActionView::FindFeed(url))
            &&& pass.accept(EventView::Feed(None)).action() == Some(
                ActionView::InsertFeed {
                    url,
                    title: if sub.title is Some {
                        sub.title->0
                    } else {
                        url
                    },
                    folder: None,
                },
            )
            &&& found.action() == Some(ActionView::ReadFeedFolder(feed))
            &&& current is Some ==> checked.action() == Some(
                ActionView::MoveFeed { feed, folder: None },
            )
        }),
{
}

/// Once the feed of a subscription is known, the server's stream id (or, without
/// one, the address behind `feed/`) and the address behind `feed/` lead to that
/// feed, every other stream leads where it led before, and the pass goes on to a
/// later subscription.
pub proof fn law_feed_bound(pass: FeedPassView, event: EventView, feed: i64)
    requires
        pass.at < pass.subs.len(),
        pass.subs[pass.at as int].url is Some,
        text::trimmed(pass.subs[pass.at as int].url->0).len() > 0,
        match pass.stage {
            FeedStage::Inserting { folder } => event == EventView::NewFeed(feed),
            FeedStage::Checking { feed: found, folder } => found == feed && event
                == EventView::FeedFolder(folder),
            FeedStage::Moving { feed: found, folder } => found == feed && event
                == EventView::Stored,
            _ => false,
        },
    ensures
        ({
            let sub = pass.subs[pass.at as int];
            let named = "feed/"@ + text::trimmed(sub.url->0);
            let stream = if sub.id.len() > 0 {
                sub.id
            } else {
                named
            };
            let next = pass.accept(event);
            &&& next.feeds == pass.feeds.insert(stream, feed).insert(named, feed)
            &&& next.subs == pass.subs
            &&& next.stage is Finished || pass.at < next.at < pass.subs.len()
        }),
{
    let url = text::trimmed(pass.subs[pass.at as int].url->0);
    let with = FeedPassView {
        feeds: pass.feeds.insert(stream_of(pass.sub(), url), feed).insert("feed/"@ + url, feed),
        ..pass
    };
    lemma_from_at(with, pass.at + 1);
    lemma_from_feeds(with, pass.at + 1);
}

proof fn lemma_from_feeds(pass: FeedPassView, i: nat)
    ensures
        pass.from(i).feeds == pass.feeds,
    decreases pass.subs.len() - i,
{
    if i < pass.subs.len() && pass.subs[i as int].first_stage() is None {
        lemma_from_feeds(pass, i + 1);
    }
}

/// No subscription with a folder or an address is passed over: the pass stops at
/// the first one, with its folder first where it has one, and ends only where none
/// is left.
pub proof fn law_no_subscription_skipped(pass: FeedPassView, i: nat)
    requires
        i <= pass.subs.len(),
    ensures
        ({
            let next = pass.from(i);
            let end = if next.stage is Finished {
                pass.subs.len() as int
            } else {
                next.at as int
            };
            &&& i <= end <= pass.subs.len()
            &&& forall|j: int|
                i <= j < end ==> first_folder((#[trigger] pass.subs[j]).categories) is None && (
                pass.subs[j].url is None || text::trimmed(pass.subs[j].url->0).len() == 0)
            &&& !(next.stage is Finished) ==> {
                let sub = pass.subs[end];
                &&& end < pass.subs.len()
                &&& first_folder(sub.categories) is Some ==> next.stage is Filing
                &&& first_folder(sub.categories) is None ==> next.stage == (FeedStage::Finding {
                    folder: None,
                }) && sub.url is Some && text::trimmed(sub.url->0).len() > 0
            }
        }),
    decreases pass.subs.len() - i,
{
    if i < pass.subs.len() && pass.subs[i as int].first_stage() is None {
        law_no_subscription_skipped(pass, i + 1);
    }
}

/// The addresses that the server lists are those of its subscriptions that have
/// one that is not empty, as they are and in order.
pub proof fn law_listed_urls(subs: Seq<SubView>)
    ensures
        listed_urls(subs) == subs.filter(
            |sub: SubView| sub.url is Some && sub.url->0.len() > 0,
        ).map_values(|sub: SubView| sub.url->0),
    decreases subs.len(),
{
    let listed = |sub: SubView| sub.url is Some && sub.url->0.len() > 0;
    let url = |sub: SubView| sub.url->0;
    reveal(Seq::filter);
    if subs.len() > 0 {
        law_listed_urls(subs.drop_last());
        let before = subs.drop_last().filter(listed);
        if listed(subs.last()) {
            assert(before.push(subs.last()).map_values(url) =~= before.map_values(url).push(
                subs.last().url->0,
            ));
        }
    } else {
        assert(subs.filter(listed).map_values(url) =~= Seq::<Seq<char>>::empty());
    }
}

/// The folder of an address is that of the first local feed with it.
pub proof fn law_target_folder(targets: Seq<FeedTargetView>, url: Seq<char>, k: int)
    requires
        0 <= k <= targets.len(),
        forall|j: int| 0 <= j < k ==> (#[trigger] targets[j]).url != url,
        k < targets.len() ==> targets[k].url == url,
    ensures
        target_folder(targets, url) == if k < targets.len() {
            targets[k].folder
        } else {
            None
        },
    decreases k,
{
    if k > 0 {
        let rest = targets.drop_first();
        assert(targets[0].url != url);
        assert forall|j: int| 0 <= j < k - 1 implies (#[trigger] rest[j]).url != url by {
            assert(rest[j] == targets[j + 1]);
        }
        law_target_folder(rest, url, k - 1);
    }
}

/// The server is asked to subscribe to the feed at hand; where it accepts and the
/// feed has a folder here, the feed is filed under it, and nothing is taken off it;
/// then comes the next feed, whatever was answered.
pub proof fn law_feed_pushed_and_filed(
    push: FeedPushView,
    session: SessionView,
    event: EventView,
    folder: Option<Seq<char>>,
)
    requires
        push.next < push.missing.len(),
        push.folder is None,
        folder == target_folder(push.targets, push.missing[push.next as int]),
    ensures
        ({
            let url = push.missing[push.next as int];
            let next = push.accept(event);
            &&& push.action(session) == Some(ActionView::Call(session.subscribe_call(url)))
            &&& event is Accepted && folder is Some ==> next.action(session) == Some(
                ActionView::Call(session.folder_call("feed/"@ + url, Seq::empty(), folder)),
            ) && forall|answer: EventView|
                (#[trigger] next.accept(answer)).next == push.next + 1 && next.accept(
                    answer,
                ).folder is None
            &&& !(event is Accepted) || folder is None ==> next.next == push.next + 1
                && next.folder is None
            &&& next.missing == push.missing
            &&& next.targets == push.targets
        }),
{
}

/// The feeds that are pushed are the local ones whose address the server does not
/// list; with all of them listed, nothing is sent.
pub proof fn law_push_starts_with_missing(
    targets: Seq<FeedTargetView>,
    server: Seq<Seq<char>>,
    url: Seq<char>,
)
    ensures
        FeedPushView::start(targets, server).missing.contains(url) <==> !server.contains(url) && (
        exists|k: int| 0 <= k < targets.len() && (#[trigger] targets[k]).url == url),
        FeedPushView::start(targets, server).next == 0,
        FeedPushView::start(targets, server).folder is None,
        FeedPushView::start(targets, server).targets == targets,
{
    let local = target_urls(targets);
    law_selects_local_only(local, server);
    let missing = FeedPushView::start(targets, server).missing;
    if exists|k: int| 0 <= k < targets.len() && (#[trigger] targets[k]).url == url {
        let k = choose|k: int| 0 <= k < targets.len() && (#[trigger] targets[k]).url == url;
        assert(local[k] == url);
    }
    if local.contains(url) {
        let k = choose|k: int| 0 <= k < local.len() && local[k] == url;
        assert(targets[k].url == url);
    }
}

}
