//! Applying the server's articles to the local store, one after the other.
use std::collections::HashSet;
use vstd::prelude::*;

use crate::data::{Item, ItemView, NewArticleView};
use crate::feeds::FeedIndex;
use crate::item::{
    item_article, item_url, item_urls, render_job, Rendering, RenderingView,
};
use crate::provider::Provider;
use crate::tags::{
    has_state_tag, law_states_recognised_exactly, tagged, READ_TAG, STARRED_TAG,
};
use crate::world::{Action, ActionView, Event, EventView, SyncError};

verus! {

/// Where the pass stands with the item at hand. An article is looked for under
/// each address; with Miniflux, whose ids are stable, then under the server's id
/// and then under the feed's guid. One that is not found is imported.
#[derive(Debug)]
pub enum ItemStage {
    /// Looking under the address of this index.
    ByUrl(usize),
    ByRemoteId,
    ByGuid { feed: i64 },
    Rendering { feed: i64 },
    Storing { feed: i64, rendering: Rendering },
    /// Looking for the article that was just stored.
    Locating { feed: i64 },
    /// Noting the server's id of the article.
    Noting { article: i64 },
    /// Asking for a local change that was not sent yet.
    Asking { article: i64 },
    /// Setting the server's state.
    Setting { article: i64 },
    /// Dropping what is queued for the article.
    Clearing { article: i64 },
    /// All items are done.
    Finished,
    Broken(SyncError),
}

pub enum ItemStageView {
    ByUrl(nat),
    ByRemoteId,
    ByGuid { feed: i64 },
    Rendering { feed: i64 },
    Storing { feed: i64, rendering: RenderingView },
    Locating { feed: i64 },
    Noting { article: i64 },
    Asking { article: i64 },
    Setting { article: i64 },
    Clearing { article: i64 },
    Finished,
    Broken(SyncError),
}

impl DeepView for ItemStage {
    type V = ItemStageView;

    open spec fn deep_view(&self) -> ItemStageView {
        match self {
            ItemStage::ByUrl(i) => ItemStageView::ByUrl(*i as nat),
            ItemStage::ByRemoteId => ItemStageView::ByRemoteId,
            ItemStage::ByGuid { feed } => ItemStageView::ByGuid { feed: *feed },
            ItemStage::Rendering { feed } => ItemStageView::Rendering { feed: *feed },
            ItemStage::Storing { feed, rendering } => ItemStageView::Storing {
                feed: *feed,
                rendering: rendering.deep_view(),
            },
            ItemStage::Locating { feed } => ItemStageView::Locating { feed: *feed },
            ItemStage::Noting { article } => ItemStageView::Noting { article: *article },
            ItemStage::Asking { article } => ItemStageView::Asking { article: *article },
            ItemStage::Setting { article } => ItemStageView::Setting { article: *article },
            ItemStage::Clearing { article } => ItemStageView::Clearing { article: *article },
            ItemStage::Finished => ItemStageView::Finished,
            ItemStage::Broken(error) => ItemStageView::Broken(*error),
        }
    }
}

/// Applies the server's articles to the local store.
pub struct ItemPass {
    pub provider: Provider,
    pub items: Vec<Item>,
    pub at: usize,
    pub stage: ItemStage,
    /// Local feeds by the server's stream id.
    pub feeds: FeedIndex,
    /// The articles whose state was set.
    pub applied: HashSet<i64>,
    /// The positions of the unread items that were imported.
    pub inserted: Vec<usize>,
}

#[verifier::ext_equal]
pub struct ItemPassView {
    pub provider: Provider,
    pub items: Seq<ItemView>,
    pub at: nat,
    pub stage: ItemStageView,
    pub feeds: Map<Seq<char>, i64>,
    pub applied: Set<i64>,
    pub inserted: Seq<usize>,
}

impl DeepView for ItemPass {
    type V = ItemPassView;

    open spec fn deep_view(&self) -> ItemPassView {
        ItemPassView {
            provider: self.provider,
            items: self.items.deep_view(),
            at: self.at as nat,
            stage: self.stage.deep_view(),
            feeds: self.feeds@,
            applied: self.applied@,
            inserted: self.inserted@,
        }
    }
}

impl ItemView {
    /// The server considers the item read.
    pub open spec fn read(self) -> bool {
        tagged(self.categories, READ_TAG@)
    }

    /// The server considers the item starred.
    pub open spec fn starred(self) -> bool {
        tagged(self.categories, STARRED_TAG@)
    }

    /// The local feed that the item belongs to.
    pub open spec fn feed_in(self, feeds: Map<Seq<char>, i64>) -> Option<i64> {
        if self.origin is Some && feeds.contains_key(self.origin->0) {
            Some(feeds[self.origin->0])
        } else {
            None
        }
    }

    /// Where the pass goes on when no address of the item is known. FreshRSS makes
    /// its ids anew for each fetch, so its items are matched by address alone:
    /// they are imported then, or passed over where their feed is not known.
    pub open spec fn stage_past_urls(
        self,
        provider: Provider,
        feeds: Map<Seq<char>, i64>,
    ) -> Option<ItemStageView> {
        match provider {
            Provider::Miniflux => Some(ItemStageView::ByRemoteId),
            Provider::FreshRss => match self.feed_in(feeds) {
                Some(feed) => Some(ItemStageView::Rendering { feed }),
                None => None,
            },
        }
    }

    /// Where the pass begins with the item, unless it is passed over.
    pub open spec fn first_stage(
        self,
        provider: Provider,
        feeds: Map<Seq<char>, i64>,
    ) -> Option<ItemStageView> {
        if self.urls().len() > 0 {
            Some(ItemStageView::ByUrl(0))
        } else {
            self.stage_past_urls(provider, feeds)
        }
    }
}

/// The first item at or after `i` that is not passed over, and where the pass
/// begins with it.
pub open spec fn begin_from(
    provider: Provider,
    items: Seq<ItemView>,
    feeds: Map<Seq<char>, i64>,
    i: nat,
) -> (nat, ItemStageView)
    decreases items.len() - i,
{
    if i >= items.len() {
        (items.len(), ItemStageView::Finished)
    } else {
        match items[i as int].first_stage(provider, feeds) {
            Some(stage) => (i, stage),
            None => begin_from(provider, items, feeds, i + 1),
        }
    }
}

impl ItemPassView {
    /// Before the first item.
    pub open spec fn start(
        provider: Provider,
        items: Seq<ItemView>,
        feeds: Map<Seq<char>, i64>,
    ) -> ItemPassView {
        let (at, stage) = begin_from(provider, items, feeds, 0);
        ItemPassView {
            provider,
            items,
            at,
            stage,
            feeds,
            applied: Set::empty(),
            inserted: Seq::empty(),
        }
    }

    /// The item at hand.
    pub open spec fn item(self) -> ItemView {
        self.items[self.at as int]
    }

    /// The same in another stage.
    pub open spec fn in_stage(self, stage: ItemStageView) -> ItemPassView {
        ItemPassView { stage, ..self }
    }

    /// On to the next item that is not passed over.
    pub open spec fn next_item(self) -> ItemPassView {
        let (at, stage) = begin_from(self.provider, self.items, self.feeds, self.at + 1);
        ItemPassView { at, stage, ..self }
    }

    /// On to what comes when no address of the item at hand is known.
    pub open spec fn past_urls(self) -> ItemPassView {
        match self.item().stage_past_urls(self.provider, self.feeds) {
            Some(stage) => self.in_stage(stage),
            None => self.next_item(),
        }
    }

    /// The next action, if there is one.
    pub open spec fn action(self) -> Option<ActionView> {
        if self.at >= self.items.len() {
            None
        } else {
            let item = self.item();
            match self.stage {
                ItemStageView::ByUrl(i) => if i < item.urls().len() {
                    Some(ActionView::FindByUrl(item.urls()[i as int]))
                } else {
                    None
                },
                ItemStageView::ByRemoteId => Some(ActionView::FindByRemoteId(item.id)),
                ItemStageView::ByGuid { feed } => Some(
                    ActionView::FindByGuid { feed, guid: item.id },
                ),
                ItemStageView::Rendering { feed } => Some(ActionView::Render(item.job())),
                ItemStageView::Storing { feed, rendering } => Some(
                    ActionView::StoreArticle { feed, new: item.article(item.url(), rendering) },
                ),
                ItemStageView::Locating { feed } => Some(
                    ActionView::FindByGuid { feed, guid: item.id },
                ),
                ItemStageView::Noting { article } => Some(
                    ActionView::SetRemoteId { article, remote_id: item.id },
                ),
                ItemStageView::Asking { article } => Some(ActionView::AskPending(article)),
                ItemStageView::Setting { article } => Some(
                    ActionView::SetState { article, read: item.read(), starred: item.starred() },
                ),
                ItemStageView::Clearing { article } => Some(ActionView::ClearQueue(article)),
                ItemStageView::Finished => None,
                ItemStageView::Broken(_) => None,
            }
        }
    }

    /// With an article found or not: on to its state, or to the next place to
    /// look.
    pub open spec fn found(self, id: Option<i64>, otherwise: ItemPassView) -> ItemPassView {
        match id {
            Some(article) => self.in_stage(ItemStageView::Noting { article }),
            None => otherwise,
        }
    }

    /// Ended by an event that the stage has no use for.
    pub open spec fn broken(self, event: EventView) -> ItemPassView {
        self.in_stage(ItemStageView::Broken(event.fault()))
    }

    /// The state after an event.
    pub open spec fn accept(self, event: EventView) -> ItemPassView {
        let item = self.item();
        if self.at >= self.items.len() {
            self
        } else {
            match self.stage {
                ItemStageView::ByUrl(i) => match event {
                    EventView::Article(id) => self.found(
                        id,
                        if i + 1 < item.urls().len() {
                            self.in_stage(ItemStageView::ByUrl(i + 1))
                        } else {
                            self.past_urls()
                        },
                    ),
                    _ => self.broken(event),
                },
                ItemStageView::ByRemoteId => match event {
                    EventView::Article(id) => self.found(
                        id,
                        match item.feed_in(self.feeds) {
                            Some(feed) => self.in_stage(ItemStageView::ByGuid { feed }),
                            None => self.next_item(),
                        },
                    ),
                    _ => self.broken(event),
                },
                ItemStageView::ByGuid { feed } => match event {
                    EventView::Article(id) => self.found(
                        id,
                        self.in_stage(ItemStageView::Rendering { feed }),
                    ),
                    _ => self.broken(event),
                },
                ItemStageView::Rendering { feed } => match event {
                    EventView::Rendered(rendering) => self.in_stage(
                        ItemStageView::Storing { feed, rendering },
                    ),
                    _ => self.broken(event),
                },
                ItemStageView::Storing { feed, rendering } => match event {
                    EventView::Imported(new) => ItemPassView {
                        stage: ItemStageView::Locating { feed },
                        inserted: if new && !item.read() {
                            self.inserted.push(self.at as usize)
                        } else {
                            self.inserted
                        },
                        ..self
                    },
                    _ => self.broken(event),
                },
                ItemStageView::Locating { feed } => match event {
                    EventView::Article(id) => self.found(id, self.next_item()),
                    _ => self.broken(event),
                },
                ItemStageView::Noting { article } => match event {
                    EventView::Stored => self.in_stage(ItemStageView::Asking { article }),
                    _ => self.broken(event),
                },
                ItemStageView::Asking { article } => match event {
                    EventView::Pending(pending) => if pending {
                        self.next_item()
                    } else {
                        self.in_stage(ItemStageView::Setting { article })
                    },
                    _ => self.broken(event),
                },
                ItemStageView::Setting { article } => match event {
                    EventView::Stored => self.in_stage(ItemStageView::Clearing { article }),
                    _ => self.broken(event),
                },
                ItemStageView::Clearing { article } => match event {
                    EventView::Stored => (ItemPassView {
                        applied: self.applied.insert(article),
                        ..self
                    }).next_item(),
                    _ => self.broken(event),
                },
                ItemStageView::Finished => self,
                ItemStageView::Broken(_) => self,
            }
        }
    }
}

fn feed_of(item: &Item, feeds: &FeedIndex) -> (r: Option<i64>)
    ensures
        r == item.deep_view().feed_in(feeds@),
{
    match &item.origin {
        Some(origin) => feeds.find(origin.stream_id.as_str()),
        None => None,
    }
}

fn stage_past_urls(provider: Provider, item: &Item, feeds: &FeedIndex) -> (r: Option<ItemStage>)
    ensures
        r.deep_view() == item.deep_view().stage_past_urls(provider, feeds@),
{
    match provider {
        Provider::Miniflux => Some(ItemStage::ByRemoteId),
        Provider::FreshRss => match feed_of(item, feeds) {
            Some(feed) => Some(ItemStage::Rendering { feed }),
            None => None,
        },
    }
}

fn first_stage(provider: Provider, item: &Item, feeds: &FeedIndex) -> (r: Option<ItemStage>)
    ensures
        r.deep_view() == item.deep_view().first_stage(provider, feeds@),
{
    if item_urls(item).len() > 0 {
        Some(ItemStage::ByUrl(0))
    } else {
        stage_past_urls(provider, item, feeds)
    }
}

fn find_begin(provider: Provider, items: &Vec<Item>, feeds: &FeedIndex, i: usize) -> (r: (
    usize,
    ItemStage,
))
    ensures
        (r.0 as nat, r.1.deep_view()) == begin_from(
            provider,
            items.deep_view(),
            feeds@,
            i as nat,
        ),
{
    let mut k: usize = i;
    while k < items.len()
        invariant
            begin_from(provider, items.deep_view(), feeds@, i as nat) == begin_from(
                provider,
                items.deep_view(),
                feeds@,
                k as nat,
            ),
        decreases items.len() - k,
    {
        assert(items.deep_view()[k as int] == items@[k as int].deep_view());
        if let Some(stage) = first_stage(provider, &items[k], feeds) {
            return (k, stage);
        }
        k = k + 1;
    }
    (items.len(), ItemStage::Finished)
}

fn copy_rendering(rendering: &Rendering) -> (r: Rendering)
    ensures
        r == *rendering,
{
    Rendering {
        body_text: rendering.body_text.clone(),
        summary_text: rendering.summary_text.clone(),
        published: rendering.published,
    }
}

impl ItemPass {
    /// Before the first item.
    pub fn new(provider: Provider, items: Vec<Item>, feeds: FeedIndex) -> (r: Self)
        ensures
            r.deep_view() == ItemPassView::start(provider, items.deep_view(), feeds@),
    {
        let (at, stage) = find_begin(provider, &items, &feeds, 0);
        ItemPass {
            provider,
            items,
            at,
            stage,
            feeds,
            applied: HashSet::new(),
            inserted: Vec::new(),
        }
    }

    /// The next action, if the pass is not over.
    pub fn action(&self) -> (r: Option<Action>)
        ensures
            r.deep_view() == self.deep_view().action(),
    {
        if self.at >= self.items.len() {
            return None;
        }
        let item = &self.items[self.at];
        match &self.stage {
            ItemStage::ByUrl(i) => {
                let urls = item_urls(item);
                if *i < urls.len() {
                    assert(urls.deep_view()[*i as int] == urls@[*i as int]@);
                    Some(Action::FindByUrl(urls[*i].clone()))
                } else {
                    None
                }
            },
            ItemStage::ByRemoteId => Some(Action::FindByRemoteId(item.id.clone())),
            ItemStage::ByGuid { feed } => Some(
                Action::FindByGuid { feed: *feed, guid: item.id.clone() },
            ),
            ItemStage::Rendering { feed } => Some(Action::Render(render_job(item))),
            ItemStage::Storing { feed, rendering } => Some(
                Action::StoreArticle {
                    feed: *feed,
                    new: item_article(item, item_url(item), copy_rendering(rendering)),
                },
            ),
            ItemStage::Locating { feed } => Some(
                Action::FindByGuid { feed: *feed, guid: item.id.clone() },
            ),
            ItemStage::Noting { article } => Some(
                Action::SetRemoteId { article: *article, remote_id: item.id.clone() },
            ),
            ItemStage::Asking { article } => Some(Action::AskPending(*article)),
            ItemStage::Setting { article } => Some(
                Action::SetState {
                    article: *article,
                    read: has_state_tag(item.categories.as_slice(), READ_TAG),
                    starred: has_state_tag(item.categories.as_slice(), STARRED_TAG),
                },
            ),
            ItemStage::Clearing { article } => Some(Action::ClearQueue(*article)),
            ItemStage::Finished => None,
            ItemStage::Broken(_) => None,
        }
    }

    fn in_stage(self, stage: ItemStage) -> (r: Self)
        ensures
            r.deep_view() == self.deep_view().in_stage(stage.deep_view()),
    {
        ItemPass {
            provider: self.provider,
            items: self.items,
            at: self.at,
            stage,
            feeds: self.feeds,
            applied: self.applied,
            inserted: self.inserted,
        }
    }

    fn next_item(self) -> (r: Self)
        requires
            self.at < self.items.len(),
        ensures
            r.deep_view() == self.deep_view().next_item(),
    {
        let (at, stage) = find_begin(self.provider, &self.items, &self.feeds, self.at + 1);
        ItemPass {
            provider: self.provider,
            items: self.items,
            at,
            stage,
            feeds: self.feeds,
            applied: self.applied,
            inserted: self.inserted,
        }
    }

    fn past_urls(self) -> (r: Self)
        requires
            self.at < self.items.len(),
        ensures
            r.deep_view() == self.deep_view().past_urls(),
    {
        match stage_past_urls(self.provider, &self.items[self.at], &self.feeds) {
            Some(stage) => self.in_stage(stage),
            None => self.next_item(),
        }
    }

    fn broken(self, event: &Event) -> (r: Self)
        ensures
            r.deep_view() == self.deep_view().broken(event.deep_view()),
    {
        self.in_stage(ItemStage::Broken(event.fault()))
    }

    /// Takes in how the last action ended.
    pub fn accept(self, event: Event) -> (r: Self)
        ensures
            r.deep_view() == self.deep_view().accept(event.deep_view()),
    {
        if self.at >= self.items.len() {
            return self;
        }
        match &self.stage {
            ItemStage::ByUrl(i) => match event {
                Event::Article(Some(article)) => self.in_stage(ItemStage::Noting { article }),
                Event::Article(None) => {
                    let i: usize = *i;
                    let urls = item_urls(&self.items[self.at]);
                    if i < urls.len() && i + 1 < urls.len() {
                        self.in_stage(ItemStage::ByUrl(i + 1))
                    } else {
                        self.past_urls()
                    }
                },
                _ => self.broken(&event),
            },
            ItemStage::ByRemoteId => match event {
                Event::Article(Some(article)) => self.in_stage(ItemStage::Noting { article }),
                Event::Article(None) => match feed_of(&self.items[self.at], &self.feeds) {
                    Some(feed) => self.in_stage(ItemStage::ByGuid { feed }),
                    None => self.next_item(),
                },
                _ => self.broken(&event),
            },
            ItemStage::ByGuid { feed } => match event {
                Event::Article(Some(article)) => self.in_stage(ItemStage::Noting { article }),
                Event::Article(None) => {
                    let feed: i64 = *feed;
                    self.in_stage(ItemStage::Rendering { feed })
                },
                _ => self.broken(&event),
            },
            ItemStage::Rendering { feed } => match event {
                Event::Rendered(rendering) => {
                    let feed: i64 = *feed;
                    self.in_stage(ItemStage::Storing { feed, rendering })
                },
                _ => self.broken(&event),
            },
            ItemStage::Storing { feed, rendering } => match event {
                Event::Imported(new) => {
                    let feed: i64 = *feed;
                    let read = has_state_tag(self.items[self.at].categories.as_slice(), READ_TAG);
                    let mut pass = self.in_stage(ItemStage::Locating { feed });
                    if new && !read {
                        let at: usize = pass.at;
                        pass.inserted.push(at);
                    }
                    pass
                },
                _ => self.broken(&event),
            },
            ItemStage::Locating { feed } => match event {
                Event::Article(Some(article)) => self.in_stage(ItemStage::Noting { article }),
                Event::Article(None) => self.next_item(),
                _ => self.broken(&event),
            },
            ItemStage::Noting { article } => match event {
                Event::Stored => {
                    let article: i64 = *article;
                    self.in_stage(ItemStage::Asking { article })
                },
                _ => self.broken(&event),
            },
            ItemStage::Asking { article } => match event {
                Event::Pending(true) => self.next_item(),
                Event::Pending(false) => {
                    let article: i64 = *article;
                    self.in_stage(ItemStage::Setting { article })
                },
                _ => self.broken(&event),
            },
            ItemStage::Setting { article } => match event {
                Event::Stored => {
                    let article: i64 = *article;
                    self.in_stage(ItemStage::Clearing { article })
                },
                _ => self.broken(&event),
            },
            ItemStage::Clearing { article } => match event {
                Event::Stored => {
                    let article: i64 = *article;
                    broadcast use vstd::std_specs::hash::group_hash_axioms;

                    let mut pass = self;
                    pass.applied.insert(article);
                    pass.next_item()
                },
                _ => self.broken(&event),
            },
            ItemStage::Finished => self,
            ItemStage::Broken(_) => self,
        }
    }
}

impl ItemPassView {
    /// The state after the events.
    pub open spec fn run(self, events: Seq<EventView>) -> ItemPassView
        decreases events.len(),
    {
        if events.len() == 0 {
            self
        } else {
            self.run(events.drop_last()).accept(events.last())
        }
    }

    /// The pass has not ended.
    pub open spec fn running(self) -> bool {
        !(self.stage is Finished) && !(self.stage is Broken)
    }

    /// What holds of the pass at every step: the stage fits the item at hand.
    pub open spec fn wf(self) -> bool {
        match self.stage {
            ItemStageView::Finished => true,
            ItemStageView::Broken(_) => true,
            ItemStageView::ByUrl(i) => self.at < self.items.len() && i < self.item().urls().len(),
            ItemStageView::ByRemoteId => self.at < self.items.len() && self.provider
                == Provider::Miniflux,
            ItemStageView::ByGuid { feed } => self.at < self.items.len() && self.item().feed_in(
                self.feeds,
            ) == Some(feed) && self.provider == Provider::Miniflux,
            ItemStageView::Rendering { feed } => self.at < self.items.len()
                && self.item().feed_in(self.feeds) == Some(feed),
            ItemStageView::Storing { feed, rendering } => self.at < self.items.len()
                && self.item().feed_in(self.feeds) == Some(feed),
            ItemStageView::Locating { feed } => self.at < self.items.len() && self.item().feed_in(
                self.feeds,
            ) == Some(feed),
            _ => self.at < self.items.len(),
        }
    }

    /// The pass looks for the article of the item at hand: under one of its
    /// addresses, under its id, or under its id within its feed.
    pub open spec fn looking(self) -> bool {
        self.stage is ByUrl || self.stage is ByRemoteId || self.stage is ByGuid || self.stage
            is Locating
    }

    /// The pass is at the beginning of the item at hand.
    pub open spec fn fresh(self) -> bool {
        self.at < self.items.len() && self.item().first_stage(
            self.provider,
            self.feeds,
        ) == Some(self.stage)
    }
}

/// The pass begins with an item at or after `i`, or there is none left.
pub proof fn lemma_begin_from(
    provider: Provider,
    items: Seq<ItemView>,
    feeds: Map<Seq<char>, i64>,
    i: nat,
)
    ensures
        ({
            let (at, stage) = begin_from(provider, items, feeds, i);
            if stage is Finished {
                at == items.len()
            } else {
                &&& i <= at < items.len()
                &&& items[at as int].first_stage(provider, feeds) == Some(stage)
            }
        }),
    decreases items.len() - i,
{
    if i < items.len() && items[i as int].first_stage(provider, feeds) is None {
        lemma_begin_from(provider, items, feeds, i + 1);
    }
}

/// What holds of the pass at the start holds after every event.
pub proof fn lemma_item_pass_wf(pass: ItemPassView, event: EventView)
    requires
        pass.wf(),
    ensures
        pass.accept(event).wf(),
        pass.accept(event).items == pass.items,
        pass.accept(event).feeds == pass.feeds,
        pass.accept(event).provider == pass.provider,
{
    lemma_begin_from(pass.provider, pass.items, pass.feeds, pass.at + 1);
}

pub proof fn lemma_item_pass_start(
    provider: Provider,
    items: Seq<ItemView>,
    feeds: Map<Seq<char>, i64>,
)
    ensures
        ItemPassView::start(provider, items, feeds).wf(),
{
    lemma_begin_from(provider, items, feeds, 0);
}

proof fn lemma_item_run_wf(
    provider: Provider,
    items: Seq<ItemView>,
    feeds: Map<Seq<char>, i64>,
    events: Seq<EventView>,
)
    ensures
        ItemPassView::start(provider, items, feeds).run(events).wf(),
        ItemPassView::start(provider, items, feeds).run(events).items == items,
        ItemPassView::start(provider, items, feeds).run(events).feeds == feeds,
        ItemPassView::start(provider, items, feeds).run(events).provider == provider,
    decreases events.len(),
{
    if events.len() == 0 {
        lemma_item_pass_start(provider, items, feeds);
    } else {
        lemma_item_run_wf(provider, items, feeds, events.drop_last());
        lemma_item_pass_wf(
            ItemPassView::start(provider, items, feeds).run(events.drop_last()),
            events.last(),
        );
    }
}

/// Whatever the store answers, the pass names a next action until it is over.
pub proof fn law_items_never_stuck(
    provider: Provider,
    items: Seq<ItemView>,
    feeds: Map<Seq<char>, i64>,
    events: Seq<EventView>,
)
    ensures
        ({
            let pass = ItemPassView::start(provider, items, feeds).run(events);
            pass.running() ==> pass.action() is Some
        }),
{
    lemma_item_run_wf(provider, items, feeds, events);
}

/// A local change that was not sent yet is never overwritten: an article's state
/// is set only right after the store has answered that this very article has no
/// such change, and it is set to what the item at hand reports.
pub proof fn law_pending_change_kept(
    pass: ItemPassView,
    event: EventView,
    article: i64,
    read: bool,
    starred: bool,
)
    requires
        pass.accept(event).action() == Some(ActionView::SetState { article, read, starred }),
    ensures
        pass.action() == Some(ActionView::AskPending(article)),
        event == EventView::Pending(false),
        read == pass.item().read(),
        starred == pass.item().starred(),
{
    lemma_begin_from(pass.provider, pass.items, pass.feeds, pass.at + 1);
}

/// What is queued for an article is dropped only right after the article's state
/// has been set.
pub proof fn law_cleared_after_setting(pass: ItemPassView, event: EventView, article: i64)
    requires
        pass.accept(event).action() == Some(ActionView::ClearQueue(article)),
    ensures
        pass.action() == Some(
            ActionView::SetState {
                article,
                read: pass.item().read(),
                starred: pass.item().starred(),
            },
        ),
        event == EventView::Stored,
{
    lemma_begin_from(pass.provider, pass.items, pass.feeds, pass.at + 1);
}

/// The question whether an article has a change that was not sent comes only
/// after the server's id of the article has been noted, so that a change that is
/// kept back can be sent.
pub proof fn law_noted_before_asking(pass: ItemPassView, event: EventView, article: i64)
    requires
        pass.accept(event).action() == Some(ActionView::AskPending(article)),
    ensures
        pass.action() == Some(
            ActionView::SetRemoteId { article, remote_id: pass.item().id },
        ),
        event == EventView::Stored,
{
    lemma_begin_from(pass.provider, pass.items, pass.feeds, pass.at + 1);
}

/// Only articles that the store has found for an item are touched: the server's
/// id is noted only right after the store has answered the search for the item
/// at hand with this article.
pub proof fn law_only_found_articles_touched(
    pass: ItemPassView,
    event: EventView,
    article: i64,
    remote_id: Seq<char>,
)
    requires
        pass.wf(),
        pass.accept(event).action() == Some(ActionView::SetRemoteId { article, remote_id }),
    ensures
        event == EventView::Article(Some(article)),
        pass.looking(),
        remote_id == pass.item().id,
        match pass.action() {
            Some(ActionView::FindByUrl(url)) => pass.item().urls().contains(url),
            Some(ActionView::FindByRemoteId(id)) => id == remote_id && pass.provider
                == Provider::Miniflux,
            Some(ActionView::FindByGuid { feed, guid }) => guid == remote_id
                && pass.item().feed_in(pass.feeds) == Some(feed) && (pass.provider
                == Provider::Miniflux || pass.stage is Locating),
            _ => false,
        },
{
    lemma_begin_from(pass.provider, pass.items, pass.feeds, pass.at + 1);
}

/// An article is stored only as the rendering of the item at hand, in the feed
/// that the item belongs to.
pub proof fn law_stored_as_rendered(
    pass: ItemPassView,
    event: EventView,
    feed: i64,
    new: NewArticleView,
)
    requires
        pass.wf(),
        pass.accept(event).action() == Some(ActionView::StoreArticle { feed, new }),
    ensures
        pass.action() == Some(ActionView::Render(pass.item().job())),
        pass.item().feed_in(pass.feeds) == Some(feed),
        event matches EventView::Rendered(rendering) && new == pass.item().article(
            pass.item().url(),
            rendering,
        ),
{
    lemma_begin_from(pass.provider, pass.items, pass.feeds, pass.at + 1);
}

/// `n` answers that nothing was found.
pub open spec fn misses(n: nat) -> Seq<EventView> {
    Seq::new(n, |i: int| EventView::Article(None))
}

proof fn lemma_misses(pass: ItemPassView, n: nat)
    requires
        pass.fresh(),
        n <= pass.item().urls().len(),
    ensures
        pass.run(misses(n)) == if n < pass.item().urls().len() {
            pass.in_stage(ItemStageView::ByUrl(n))
        } else {
            pass.past_urls()
        },
    decreases n,
{
    if n > 0 {
        lemma_misses(pass, (n - 1) as nat);
        assert(misses(n).drop_last() =~= misses((n - 1) as nat));
    }
}

/// With Miniflux an article is looked for under every address of the item, in
/// order, then under the item's id, then under the id within the item's feed; an
/// item is rendered for import only when all of these have found nothing, and an
/// item of no known feed is passed over then.
pub proof fn law_lookup_order_of_miniflux(pass: ItemPassView, n: nat)
    requires
        pass.fresh(),
        pass.provider == Provider::Miniflux,
    ensures
        ({
            let item = pass.item();
            let urls = item.urls();
            &&& n < urls.len() ==> pass.run(misses(n)).action() == Some(
                ActionView::FindByUrl(urls[n as int]),
            )
            &&& pass.run(misses(urls.len())).action() == Some(ActionView::FindByRemoteId(item.id))
            &&& match item.feed_in(pass.feeds) {
                Some(feed) => {
                    &&& pass.run(misses(urls.len() + 1)).action() == Some(
                        ActionView::FindByGuid { feed, guid: item.id },
                    )
                    &&& pass.run(misses(urls.len() + 2)).action() == Some(
                        ActionView::Render(item.job()),
                    )
                },
                None => pass.run(misses(urls.len() + 1)) == pass.next_item(),
            }
        }),
{
    let len = pass.item().urls().len();
    if n < len {
        lemma_misses(pass, n);
    }
    lemma_misses(pass, len);
    assert(misses(len + 1).drop_last() =~= misses(len));
    assert(misses(len + 2).drop_last() =~= misses(len + 1));
}

/// With FreshRSS an article is looked for under every address of the item, in
/// order, and nowhere else; when all of them have found nothing, the item is
/// rendered for import, or passed over where its feed is not known.
pub proof fn law_lookup_order_of_freshrss(pass: ItemPassView, n: nat)
    requires
        pass.fresh(),
        pass.provider == Provider::FreshRss,
    ensures
        ({
            let item = pass.item();
            let urls = item.urls();
            &&& n < urls.len() ==> pass.run(misses(n)).action() == Some(
                ActionView::FindByUrl(urls[n as int]),
            )
            &&& match item.feed_in(pass.feeds) {
                Some(feed) => pass.run(misses(urls.len())).action() == Some(
                    ActionView::Render(item.job()),
                ),
                None => pass.run(misses(urls.len())) == pass.next_item(),
            }
        }),
{
    let len = pass.item().urls().len();
    if n < len {
        lemma_misses(pass, n);
    }
    lemma_misses(pass, len);
}

/// Items of FreshRSS are matched by address alone: whatever the store answers, a
/// pass over them never looks for an article under the server's id, and looks
/// under a guid only to locate the article that it has just stored.
pub proof fn law_freshrss_matched_by_url(
    items: Seq<ItemView>,
    feeds: Map<Seq<char>, i64>,
    events: Seq<EventView>,
)
    ensures
        ({
            let start = ItemPassView::start(Provider::FreshRss, items, feeds);
            match start.run(events).action() {
                Some(ActionView::FindByRemoteId(_)) => false,
                Some(ActionView::FindByGuid { feed, guid }) => {
                    let before = start.run(events.drop_last());
                    &&& events.len() > 0
                    &&& before.action() matches Some(ActionView::StoreArticle {
                        feed: into,
                        new,
                    }) && into == feed && new.guid == guid
                    &&& events.last() is Imported
                },
                _ => true,
            }
        }),
{
    let start = ItemPassView::start(Provider::FreshRss, items, feeds);
    lemma_item_run_wf(Provider::FreshRss, items, feeds, events);
    if events.len() > 0 {
        let before = start.run(events.drop_last());
        lemma_item_run_wf(Provider::FreshRss, items, feeds, events.drop_last());
        lemma_begin_from(Provider::FreshRss, items, feeds, before.at + 1);
    } else {
        lemma_begin_from(Provider::FreshRss, items, feeds, 0);
    }
}

/// What becomes of an article that was found: the server's id is noted; where a
/// change waits to be sent, nothing else happens and the article does not count;
/// otherwise the state is set, the queue is cleared and the article counts.
pub proof fn law_found_article(pass: ItemPassView, article: i64)
    requires
        pass.at < pass.items.len(),
        pass.looking(),
    ensures
        ({
            let found = pass.accept(EventView::Article(Some(article)));
            let noted = found.accept(EventView::Stored);
            let set = noted.accept(EventView::Pending(false)).accept(EventView::Stored);
            &&& found.action() == Some(
                ActionView::SetRemoteId { article, remote_id: pass.item().id },
            )
            &&& noted.action() == Some(ActionView::AskPending(article))
            &&& noted.accept(EventView::Pending(true)) == found.next_item()
            &&& noted.accept(EventView::Pending(false)).action() == Some(
                ActionView::SetState {
                    article,
                    read: pass.item().read(),
                    starred: pass.item().starred(),
                },
            )
            &&& set.action() == Some(ActionView::ClearQueue(article))
            &&& set.accept(EventView::Stored) == (ItemPassView {
                applied: pass.applied.insert(article),
                ..set
            }).next_item()
            &&& found.applied == pass.applied
        }),
{
}

/// What becomes of an item that is imported: it is rendered and stored, and then
/// treated as found where the store finds it, or passed over where it does not.
/// It counts as imported where it is new and unread.
pub proof fn law_imported_article(
    pass: ItemPassView,
    feed: i64,
    rendering: RenderingView,
    new: bool,
)
    requires
        pass.at < pass.items.len(),
        pass.stage == (ItemStageView::Rendering { feed }),
    ensures
        ({
            let rendered = pass.accept(EventView::Rendered(rendering));
            let stored = rendered.accept(EventView::Imported(new));
            &&& rendered.action() == Some(
                ActionView::StoreArticle {
                    feed,
                    new: pass.item().article(pass.item().url(), rendering),
                },
            )
            &&& stored.action() == Some(ActionView::FindByGuid { feed, guid: pass.item().id })
            &&& stored.looking()
            &&& stored.accept(EventView::Article(None)) == stored.next_item()
            &&& stored.inserted == if new && !pass.item().read() {
                pass.inserted.push(pass.at as usize)
            } else {
                pass.inserted
            }
        }),
{
}

impl ItemPassView {
    /// The articles of which the events confirm that what was queued for them has
    /// been dropped, which is the last thing done to an article.
    pub open spec fn confirmed(self, events: Seq<EventView>) -> Set<i64>
        decreases events.len(),
    {
        if events.len() == 0 {
            Set::empty()
        } else {
            let before = self.confirmed(events.drop_last());
            match self.run(events.drop_last()).action() {
                Some(ActionView::ClearQueue(article)) => if events.last() is Stored {
                    before.insert(article)
                } else {
                    before
                },
                _ => before,
            }
        }
    }
}

/// Exactly the articles whose state was set are counted, each of them once however
/// many items stand for it.
pub proof fn law_applied_counted(
    provider: Provider,
    items: Seq<ItemView>,
    feeds: Map<Seq<char>, i64>,
    events: Seq<EventView>,
)
    ensures
        ({
            let start = ItemPassView::start(provider, items, feeds);
            start.run(events).applied == start.confirmed(events)
        }),
    decreases events.len(),
{
    if events.len() > 0 {
        law_applied_counted(provider, items, feeds, events.drop_last());
        lemma_item_run_wf(provider, items, feeds, events.drop_last());
    }
}

/// A failure of the store ends the pass.
pub proof fn law_store_failure_ends_items(pass: ItemPassView, event: EventView)
    requires
        pass.wf(),
        pass.running(),
        event.is_failure(),
    ensures
        pass.accept(event).stage == ItemStageView::Broken(SyncError::Outside),
{
}

/// An item is not imported again where the store knows an article under any of
/// its addresses: that article is taken, however many of the addresses before
/// found nothing. With Miniflux the same holds of the item's id, and of its id
/// within its feed.
pub proof fn law_known_item_not_imported(pass: ItemPassView, n: nat, article: i64)
    requires
        pass.fresh(),
        n < pass.item().urls().len() || (pass.provider == Provider::Miniflux && (n
            == pass.item().urls().len() || (n == pass.item().urls().len() + 1
            && pass.item().feed_in(pass.feeds) is Some))),
    ensures
        pass.run(misses(n)).accept(EventView::Article(Some(article))) == pass.in_stage(
            ItemStageView::Noting { article },
        ),
{
    let len = pass.item().urls().len();
    if n <= len {
        lemma_misses(pass, n);
    } else {
        lemma_misses(pass, len);
        assert(misses(n).drop_last() =~= misses(len));
    }
}

impl ItemPassView {
    /// The articles that the store has found for the items, when the events have
    /// come.
    pub open spec fn found_by(self, events: Seq<EventView>) -> Set<i64>
        decreases events.len(),
    {
        if events.len() == 0 {
            Set::empty()
        } else {
            let before = self.found_by(events.drop_last());
            match events.last() {
                EventView::Article(Some(article)) => if self.run(events.drop_last()).looking() {
                    before.insert(article)
                } else {
                    before
                },
                _ => before,
            }
        }
    }
}

/// The article that an action changes or asks about, if it is an action on one
/// article.
pub open spec fn article_of(action: ActionView) -> Option<i64> {
    match action {
        ActionView::SetRemoteId { article, remote_id } => Some(article),
        ActionView::AskPending(article) => Some(article),
        ActionView::SetState { article, read, starred } => Some(article),
        ActionView::ClearQueue(article) => Some(article),
        _ => None,
    }
}

/// The action searches for an article.
pub open spec fn searches(action: ActionView) -> bool {
    action is FindByUrl || action is FindByRemoteId || action is FindByGuid
}

/// An article comes to be acted on only when a search has just found it.
pub proof fn lemma_article_step(pass: ItemPassView, event: EventView, article: i64)
    requires
        pass.wf(),
        pass.accept(event).action() is Some,
        article_of(pass.accept(event).action()->0) == Some(article),
    ensures
        pass.action() is Some,
        article_of(pass.action()->0) == Some(article) || (searches(pass.action()->0) && event
            == EventView::Article(Some(article))),
{
    lemma_begin_from(pass.provider, pass.items, pass.feeds, pass.at + 1);
}

proof fn lemma_found(
    provider: Provider,
    items: Seq<ItemView>,
    feeds: Map<Seq<char>, i64>,
    events: Seq<EventView>,
)
    ensures
        ({
            let start = ItemPassView::start(provider, items, feeds);
            let found = start.found_by(events);
            match start.run(events).stage {
                ItemStageView::Noting { article } => found.contains(article),
                ItemStageView::Asking { article } => found.contains(article),
                ItemStageView::Setting { article } => found.contains(article),
                ItemStageView::Clearing { article } => found.contains(article),
                _ => true,
            }
        }),
    decreases events.len(),
{
    if events.len() > 0 {
        let before = ItemPassView::start(provider, items, feeds).run(events.drop_last());
        lemma_found(provider, items, feeds, events.drop_last());
        lemma_item_run_wf(provider, items, feeds, events.drop_last());
        lemma_begin_from(provider, items, feeds, before.at + 1);
    } else {
        lemma_begin_from(provider, items, feeds, 0);
    }
}

/// An article that no item was matched to keeps its state: nothing is done to it,
/// whatever the store answers.
pub proof fn law_unmentioned_untouched(
    provider: Provider,
    items: Seq<ItemView>,
    feeds: Map<Seq<char>, i64>,
    events: Seq<EventView>,
    article: i64,
)
    requires
        !ItemPassView::start(provider, items, feeds).found_by(events).contains(article),
    ensures
        ItemPassView::start(provider, items, feeds).run(events).action() matches Some(action) ==> article_of(
            action,
        ) != Some(article),
{
    lemma_found(provider, items, feeds, events);
}

impl ItemPassView {
    /// How far the pass is from its end: the items that are left, and the steps
    /// that are left for the one at hand.
    pub open spec fn left(self) -> (nat, nat) {
        (
            (self.items.len() - self.at) as nat,
            match self.stage {
                ItemStageView::ByUrl(i) => (self.item().urls().len() - i + 9) as nat,
                ItemStageView::ByRemoteId => 9,
                ItemStageView::ByGuid { feed } => 8,
                ItemStageView::Rendering { feed } => 7,
                ItemStageView::Storing { feed, rendering } => 6,
                ItemStageView::Locating { feed } => 5,
                ItemStageView::Noting { article } => 4,
                ItemStageView::Asking { article } => 3,
                ItemStageView::Setting { article } => 2,
                ItemStageView::Clearing { article } => 1,
                _ => 0,
            },
        )
    }
}

/// Every event brings the pass nearer to its end.
pub proof fn lemma_item_pass_left(pass: ItemPassView, event: EventView)
    requires
        pass.wf(),
        pass.running(),
    ensures
        ({
            let next = pass.accept(event);
            ||| !next.running()
            ||| next.left().0 < pass.left().0
            ||| next.left().0 == pass.left().0 && next.left().1 < pass.left().1
        }),
{
    lemma_begin_from(pass.provider, pass.items, pass.feeds, pass.at + 1);
}

/// The server considers an item read exactly where one of its categories ends in
/// the name of the read state, and starred exactly where one ends in that of the
/// starred state.
pub proof fn law_item_states(item: ItemView)
    ensures
        item.read() <==> exists|i: int|
            0 <= i < item.categories.len() && "/state/com.google/read"@.is_suffix_of(
                #[trigger] item.categories[i],
            ),
        item.starred() <==> exists|i: int|
            0 <= i < item.categories.len() && "/state/com.google/starred"@.is_suffix_of(
                #[trigger] item.categories[i],
            ),
{
    law_states_recognised_exactly(item.categories);
}

/// The state that is set is the one that the categories of the item at hand spell
/// out: an item without a read category is set unread, one without a starred
/// category unstarred.
pub proof fn law_state_set_from_categories(
    pass: ItemPassView,
    article: i64,
    read: bool,
    starred: bool,
)
    requires
        pass.action() == Some(ActionView::SetState { article, read, starred }),
    ensures
        pass.at < pass.items.len(),
        pass.stage == (ItemStageView::Setting { article }),
        read <==> exists|i: int|
            0 <= i < pass.item().categories.len() && "/state/com.google/read"@.is_suffix_of(
                #[trigger] pass.item().categories[i],
            ),
        starred <==> exists|i: int|
            0 <= i < pass.item().categories.len() && "/state/com.google/starred"@.is_suffix_of(
                #[trigger] pass.item().categories[i],
            ),
{
    law_item_states(pass.item());
}

/// An item belongs to the feed that the stream of its origin leads to, and to none
/// where it has no origin or the stream leads nowhere.
pub proof fn law_feed_of_item(item: ItemView, feeds: Map<Seq<char>, i64>)
    ensures
        item.origin is Some && feeds.contains_key(item.origin->0) ==> item.feed_in(feeds) == Some(
            feeds[item.origin->0],
        ),
        item.origin is None || !feeds.contains_key(item.origin->0) ==> item.feed_in(feeds) is None,
{
}

/// An article is stored with the item's first address, or none where it has no
/// address; every other part is that of the item's article.
pub proof fn law_stored_under_first_url(pass: ItemPassView, feed: i64, new: NewArticleView)
    requires
        pass.action() == Some(ActionView::StoreArticle { feed, new }),
    ensures
        pass.item().urls().len() > 0 ==> new.url == Some(pass.item().urls()[0]),
        pass.item().urls().len() == 0 ==> new.url is None,
        new.guid == pass.item().id,
        pass.stage matches ItemStageView::Storing { feed: into, rendering } && into == feed && new
            == pass.item().article(new.url, rendering),
{
}

/// The pass passes over no item of Miniflux, and over an item of FreshRSS only
/// where it has neither an address nor a known feed. It begins with the first
/// address, where there is one.
pub proof fn law_no_item_skipped(
    provider: Provider,
    items: Seq<ItemView>,
    feeds: Map<Seq<char>, i64>,
    i: nat,
)
    requires
        i <= items.len(),
    ensures
        ({
            let (at, stage) = begin_from(provider, items, feeds, i);
            &&& i <= at <= items.len()
            &&& provider is Miniflux ==> at == i
            &&& forall|j: int|
                i <= j < at ==> (#[trigger] items[j]).urls().len() == 0 && items[j].feed_in(
                    feeds,
                ) is None
            &&& at < items.len() ==> {
                let item = items[at as int];
                &&& item.urls().len() > 0 ==> stage == ItemStageView::ByUrl(0)
                &&& item.urls().len() == 0 && provider is Miniflux ==> stage
                    == ItemStageView::ByRemoteId
                &&& item.urls().len() == 0 && provider is FreshRss ==> item.feed_in(feeds) is Some
                    && stage == (ItemStageView::Rendering { feed: item.feed_in(feeds)->0 })
            }
            &&& at == items.len() <==> stage is Finished
        }),
    decreases items.len() - i,
{
    if i < items.len() && items[i as int].first_stage(provider, feeds) is None {
        law_no_item_skipped(provider, items, feeds, i + 1);
    }
}

/// A pass begins with the first item that is not passed over, with nothing applied
/// and nothing imported, and goes from one item on to the next.
pub proof fn law_item_pass_order(
    provider: Provider,
    items: Seq<ItemView>,
    feeds: Map<Seq<char>, i64>,
    pass: ItemPassView,
)
    ensures
        ({
            let start = ItemPassView::start(provider, items, feeds);
            &&& (start.at, start.stage) == begin_from(provider, items, feeds, 0)
            &&& start.items == items
            &&& start.feeds == feeds
            &&& start.provider == provider
            &&& start.applied == Set::<i64>::empty()
            &&& start.inserted.len() == 0
            &&& (pass.next_item().at, pass.next_item().stage) == begin_from(
                pass.provider,
                pass.items,
                pass.feeds,
                pass.at + 1,
            )
            &&& pass.next_item().items == pass.items
            &&& pass.next_item().feeds == pass.feeds
            &&& pass.next_item().applied == pass.applied
            &&& pass.next_item().inserted == pass.inserted
        }),
{
}

}
