//! Pulling the server's articles, and the addresses that it considers unread
//! and starred. Miniflux is asked for ids and then for the items with these ids,
//! FreshRSS for the items of a stream.
use vstd::prelude::*;
use vstd::slice::slice_subrange;

use crate::data::{ContentsView, IdListView, Item, ItemView};
use crate::greader::{Session, SessionView};
use crate::item::item_url;
use crate::paging::{
    all_ids, all_items, law_ids_kept, law_items_kept, IdPager, IdPagerView, StreamPager,
    StreamPagerView,
};
use crate::provider::Provider;
use crate::tags::{READING_LIST, READ_TAG, STARRED_TAG};
use crate::world::{Action, ActionView, Event, EventView, SyncError};

verus! {

/// How many items are asked for by id in one request.
pub const CHUNK: usize = 500;

/// Where the chunk that begins at `from` ends.
pub open spec fn chunk_end(len: nat, from: nat) -> nat {
    if from + CHUNK <= len {
        from + CHUNK as nat
    } else {
        len
    }
}

/// The ids of the chunk that begins at `from`.
pub open spec fn chunk(ids: Seq<Seq<char>>, from: nat) -> Seq<Seq<char>> {
    ids.subrange(from as int, chunk_end(ids.len(), from) as int)
}

fn chunk_stop(len: usize, from: usize) -> (r: usize)
    requires
        from < len,
    ensures
        r == chunk_end(len as nat, from as nat),
        from < r <= len,
{
    if len - from >= CHUNK {
        from + CHUNK
    } else {
        len
    }
}

/// Pulls the articles whose state the server reports: of Miniflux the whole
/// reading list, of FreshRSS the unread and the starred articles.
#[derive(Debug)]
pub enum Pull {
    Ids(IdPager),
    Fetching { ids: Vec<String>, next: usize, items: Vec<Item> },
    Unread(StreamPager),
    Starred { unread: Vec<Item>, pager: StreamPager },
    Done(Vec<Item>),
    Broken(SyncError),
}

#[verifier::ext_equal]
pub enum PullView {
    Ids(IdPagerView),
    Fetching { ids: Seq<Seq<char>>, next: nat, items: Seq<ItemView> },
    Unread(StreamPagerView),
    Starred { unread: Seq<ItemView>, pager: StreamPagerView },
    Done(Seq<ItemView>),
    Broken(SyncError),
}

impl DeepView for Pull {
    type V = PullView;

    open spec fn deep_view(&self) -> PullView {
        match self {
            Pull::Ids(pager) => PullView::Ids(pager.deep_view()),
            Pull::Fetching { ids, next, items } => PullView::Fetching {
                ids: ids.deep_view(),
                next: *next as nat,
                items: items.deep_view(),
            },
            Pull::Unread(pager) => PullView::Unread(pager.deep_view()),
            Pull::Starred { unread, pager } => PullView::Starred {
                unread: unread.deep_view(),
                pager: pager.deep_view(),
            },
            Pull::Done(items) => PullView::Done(items.deep_view()),
            Pull::Broken(error) => PullView::Broken(*error),
        }
    }
}

impl PullView {
    /// The state before the first event.
    pub open spec fn start(provider: Provider) -> PullView {
        match provider {
            Provider::Miniflux => PullView::Ids(IdPagerView::start(READING_LIST@, None)),
            Provider::FreshRss => PullView::Unread(
                StreamPagerView::start(READING_LIST@, Some(READ_TAG@)),
            ),
        }
    }

    /// With the items before the id at `next` fetched.
    pub open spec fn fetched(
        ids: Seq<Seq<char>>,
        next: nat,
        items: Seq<ItemView>,
    ) -> PullView {
        if next < ids.len() {
            PullView::Fetching { ids, next, items }
        } else {
            PullView::Done(items)
        }
    }

    /// The next action, if there is one.
    pub open spec fn action(self, session: SessionView) -> Option<ActionView> {
        match self {
            PullView::Ids(pager) => Some(ActionView::Call(pager.call(session))),
            PullView::Fetching { ids, next, items } => if next < ids.len() {
                Some(ActionView::Call(session.items_call(chunk(ids, next))))
            } else {
                None
            },
            PullView::Unread(pager) => Some(ActionView::Call(pager.call(session))),
            PullView::Starred { unread, pager } => Some(ActionView::Call(pager.call(session))),
            PullView::Done(_) => None,
            PullView::Broken(_) => None,
        }
    }

    /// The state after an event.
    pub open spec fn accept(self, event: EventView) -> PullView {
        match self {
            PullView::Ids(pager) => match event {
                EventView::Ids(page) => {
                    let pager = pager.take_page(page);
                    if pager.done() {
                        PullView::fetched(pager.ids, 0, Seq::empty())
                    } else {
                        PullView::Ids(pager)
                    }
                },
                _ => PullView::Broken(event.fault()),
            },
            PullView::Fetching { ids, next, items } => match event {
                EventView::Contents(page) => if next < ids.len() {
                    PullView::fetched(ids, chunk_end(ids.len(), next), items + page.items)
                } else {
                    PullView::Done(items)
                },
                _ => PullView::Broken(event.fault()),
            },
            PullView::Unread(pager) => match event {
                EventView::Contents(page) => {
                    let pager = pager.take_page(page);
                    if pager.done() {
                        PullView::Starred {
                            unread: pager.items,
                            pager: StreamPagerView::start(STARRED_TAG@, None),
                        }
                    } else {
                        PullView::Unread(pager)
                    }
                },
                _ => PullView::Broken(event.fault()),
            },
            PullView::Starred { unread, pager } => match event {
                EventView::Contents(page) => {
                    let pager = pager.take_page(page);
                    if pager.done() {
                        PullView::Done(unread + pager.items)
                    } else {
                        PullView::Starred { unread, pager }
                    }
                },
                _ => PullView::Broken(event.fault()),
            },
            PullView::Done(_) => self,
            PullView::Broken(_) => self,
        }
    }
}

/// Starts to pull the articles whose state the server reports.
pub fn pull_remote_items(provider: Provider) -> (r: Pull)
    ensures
        r.deep_view() == PullView::start(provider),
{
    match provider {
        Provider::Miniflux => Pull::Ids(IdPager::new(READING_LIST, None)),
        Provider::FreshRss => Pull::Unread(StreamPager::new(READING_LIST, Some(READ_TAG))),
    }
}

impl Pull {
    fn fetched(ids: Vec<String>, next: usize, items: Vec<Item>) -> (r: Self)
        ensures
            r.deep_view() == PullView::fetched(ids.deep_view(), next as nat, items.deep_view()),
    {
        if next < ids.len() {
            Pull::Fetching { ids, next, items }
        } else {
            Pull::Done(items)
        }
    }

    /// The next action, if the pull is not over.
    pub fn action(&self, session: &Session) -> (r: Option<Action>)
        ensures
            r.deep_view() == self.deep_view().action(session.deep_view()),
    {
        match self {
            Pull::Ids(pager) => Some(Action::Call(pager.request(session))),
            Pull::Fetching { ids, next, items } => {
                if *next < ids.len() {
                    let stop = chunk_stop(ids.len(), *next);
                    let part = slice_subrange(ids.as_slice(), *next, stop);
                    assert(part.deep_view() =~= chunk(ids.deep_view(), *next as nat));
                    Some(Action::Call(session.items_by_id(part)))
                } else {
                    None
                }
            },
            Pull::Unread(pager) => Some(Action::Call(pager.request(session))),
            Pull::Starred { unread, pager } => Some(Action::Call(pager.request(session))),
            Pull::Done(_) => None,
            Pull::Broken(_) => None,
        }
    }

    /// Takes in how the last action ended.
    pub fn accept(self, event: Event) -> (r: Self)
        ensures
            r.deep_view() == self.deep_view().accept(event.deep_view()),
    {
        match self {
            Pull::Ids(pager) => match event {
                Event::Ids(page) => {
                    let pager = pager.accept(page);
                    if pager.done() {
                        let none: Vec<Item> = Vec::new();
                        assert(none.deep_view() =~= Seq::<ItemView>::empty());
                        Pull::fetched(pager.ids, 0, none)
                    } else {
                        Pull::Ids(pager)
                    }
                },
                _ => Pull::Broken(event.fault()),
            },
            Pull::Fetching { ids, next, items } => match event {
                Event::Contents(page) => {
                    if next < ids.len() {
                        let stop = chunk_stop(ids.len(), next);
                        Pull::fetched(ids, stop, joined(items, page.items))
                    } else {
                        Pull::Done(items)
                    }
                },
                _ => Pull::Broken(event.fault()),
            },
            Pull::Unread(pager) => match event {
                Event::Contents(page) => {
                    let pager = pager.accept(page);
                    if pager.done() {
                        Pull::Starred {
                            unread: pager.items,
                            pager: StreamPager::new(STARRED_TAG, None),
                        }
                    } else {
                        Pull::Unread(pager)
                    }
                },
                _ => Pull::Broken(event.fault()),
            },
            Pull::Starred { unread, pager } => match event {
                Event::Contents(page) => {
                    let pager = pager.accept(page);
                    if pager.done() {
                        Pull::Done(joined(unread, pager.items))
                    } else {
                        Pull::Starred { unread, pager }
                    }
                },
                _ => Pull::Broken(event.fault()),
            },
            Pull::Done(items) => Pull::Done(items),
            Pull::Broken(error) => Pull::Broken(error),
        }
    }
}

fn joined(a: Vec<Item>, b: Vec<Item>) -> (r: Vec<Item>)
    ensures
        r.deep_view() == a.deep_view() + b.deep_view(),
{
    let mut r = a;
    let mut more = b;
    r.append(&mut more);
    assert(r.deep_view() =~= a.deep_view() + b.deep_view());
    r
}

/// The address of each item that has one.
pub open spec fn known_urls(items: Seq<ItemView>) -> Seq<Seq<char>>
    decreases items.len(),
{
    if items.len() == 0 {
        Seq::empty()
    } else {
        let before = known_urls(items.drop_last());
        match items.last().url() {
            Some(url) => before.push(url),
            None => before,
        }
    }
}

fn urls_of(items: &Vec<Item>) -> (r: Vec<String>)
    ensures
        r.deep_view() == known_urls(items.deep_view()),
{
    let ghost all = items.deep_view();
    let mut r: Vec<String> = Vec::new();
    assert(r.deep_view() =~= known_urls(all.take(0)));
    for i in 0..items.len()
        invariant
            all == items.deep_view(),
            r.deep_view() == known_urls(all.take(i as int)),
    {
        let ghost had = r.deep_view();
        assert(all.take(i + 1).drop_last() =~= all.take(i as int));
        assert(all.take(i + 1).last() == items@[i as int].deep_view());
        if let Some(url) = item_url(&items[i]) {
            let ghost new = url@;
            r.push(url);
            assert(r.deep_view() =~= had.push(new));
        }
    }
    assert(all.take(all.len() as int) =~= all);
    r
}

/// Pulls the addresses of all articles that the server considers unread, and of
/// all that it considers starred.
#[derive(Debug)]
pub enum StatePull {
    UnreadIds(IdPager),
    StarredIds { unread_ids: Vec<String>, ids: IdPager },
    UnreadItems { unread_ids: Vec<String>, starred_ids: Vec<String> },
    StarredItems { unread_urls: Vec<String>, starred_ids: Vec<String> },
    Unread(StreamPager),
    Starred { unread_urls: Vec<String>, pager: StreamPager },
    Done { unread_urls: Vec<String>, starred_urls: Vec<String> },
    Broken(SyncError),
}

#[verifier::ext_equal]
pub enum StatePullView {
    UnreadIds(IdPagerView),
    StarredIds { unread_ids: Seq<Seq<char>>, ids: IdPagerView },
    UnreadItems { unread_ids: Seq<Seq<char>>, starred_ids: Seq<Seq<char>> },
    StarredItems { unread_urls: Seq<Seq<char>>, starred_ids: Seq<Seq<char>> },
    Unread(StreamPagerView),
    Starred { unread_urls: Seq<Seq<char>>, pager: StreamPagerView },
    Done { unread_urls: Seq<Seq<char>>, starred_urls: Seq<Seq<char>> },
    Broken(SyncError),
}

impl DeepView for StatePull {
    type V = StatePullView;

    open spec fn deep_view(&self) -> StatePullView {
        match self {
            StatePull::UnreadIds(pager) => StatePullView::UnreadIds(pager.deep_view()),
            StatePull::StarredIds { unread_ids, ids } => StatePullView::StarredIds {
                unread_ids: unread_ids.deep_view(),
                ids: ids.deep_view(),
            },
            StatePull::UnreadItems { unread_ids, starred_ids } => StatePullView::UnreadItems {
                unread_ids: unread_ids.deep_view(),
                starred_ids: starred_ids.deep_view(),
            },
            StatePull::StarredItems { unread_urls, starred_ids } => StatePullView::StarredItems {
                unread_urls: unread_urls.deep_view(),
                starred_ids: starred_ids.deep_view(),
            },
            StatePull::Unread(pager) => StatePullView::Unread(pager.deep_view()),
            StatePull::Starred { unread_urls, pager } => StatePullView::Starred {
                unread_urls: unread_urls.deep_view(),
                pager: pager.deep_view(),
            },
            StatePull::Done { unread_urls, starred_urls } => StatePullView::Done {
                unread_urls: unread_urls.deep_view(),
                starred_urls: starred_urls.deep_view(),
            },
            StatePull::Broken(error) => StatePullView::Broken(*error),
        }
    }
}

impl StatePullView {
    /// The state before the first event.
    pub open spec fn start(provider: Provider) -> StatePullView {
        match provider {
            Provider::Miniflux => StatePullView::UnreadIds(
                IdPagerView::start(READING_LIST@, Some(READ_TAG@)),
            ),
            Provider::FreshRss => StatePullView::Unread(
                StreamPagerView::start(READING_LIST@, Some(READ_TAG@)),
            ),
        }
    }

    /// With the unread items fetched: no items are asked for where there are no
    /// ids.
    pub open spec fn with_unread(
        unread: Seq<ItemView>,
        starred_ids: Seq<Seq<char>>,
    ) -> StatePullView {
        if starred_ids.len() > 0 {
            StatePullView::StarredItems { unread_urls: known_urls(unread), starred_ids }
        } else {
            StatePullView::Done { unread_urls: known_urls(unread), starred_urls: Seq::empty() }
        }
    }

    /// The next action, if there is one.
    pub open spec fn action(self, session: SessionView) -> Option<ActionView> {
        match self {
            StatePullView::UnreadIds(pager) => Some(ActionView::Call(pager.call(session))),
            StatePullView::StarredIds { unread_ids, ids } => Some(
                ActionView::Call(ids.call(session)),
            ),
            StatePullView::UnreadItems { unread_ids, starred_ids } => Some(
                ActionView::Call(session.items_call(unread_ids)),
            ),
            StatePullView::StarredItems { unread_urls, starred_ids } => Some(
                ActionView::Call(session.items_call(starred_ids)),
            ),
            StatePullView::Unread(pager) => Some(ActionView::Call(pager.call(session))),
            StatePullView::Starred { unread_urls, pager } => Some(
                ActionView::Call(pager.call(session)),
            ),
            StatePullView::Done { unread_urls, starred_urls } => None,
            StatePullView::Broken(_) => None,
        }
    }

    /// The state after an event.
    pub open spec fn accept(self, event: EventView) -> StatePullView {
        match self {
            StatePullView::UnreadIds(pager) => match event {
                EventView::Ids(page) => {
                    let pager = pager.take_page(page);
                    if pager.done() {
                        StatePullView::StarredIds {
                            unread_ids: pager.ids,
                            ids: IdPagerView::start(STARRED_TAG@, None),
                        }
                    } else {
                        StatePullView::UnreadIds(pager)
                    }
                },
                _ => StatePullView::Broken(event.fault()),
            },
            StatePullView::StarredIds { unread_ids, ids } => match event {
                EventView::Ids(page) => {
                    let ids = ids.take_page(page);
                    if !ids.done() {
                        StatePullView::StarredIds { unread_ids, ids }
                    } else if unread_ids.len() > 0 {
                        StatePullView::UnreadItems { unread_ids, starred_ids: ids.ids }
                    } else {
                        StatePullView::with_unread(Seq::empty(), ids.ids)
                    }
                },
                _ => StatePullView::Broken(event.fault()),
            },
            StatePullView::UnreadItems { unread_ids, starred_ids } => match event {
                EventView::Contents(page) => StatePullView::with_unread(page.items, starred_ids),
                _ => StatePullView::Broken(event.fault()),
            },
            StatePullView::StarredItems { unread_urls, starred_ids } => match event {
                EventView::Contents(page) => StatePullView::Done {
                    unread_urls,
                    starred_urls: known_urls(page.items),
                },
                _ => StatePullView::Broken(event.fault()),
            },
            StatePullView::Unread(pager) => match event {
                EventView::Contents(page) => {
                    let pager = pager.take_page(page);
                    if pager.done() {
                        StatePullView::Starred {
                            unread_urls: known_urls(pager.items),
                            pager: StreamPagerView::start(STARRED_TAG@, None),
                        }
                    } else {
                        StatePullView::Unread(pager)
                    }
                },
                _ => StatePullView::Broken(event.fault()),
            },
            StatePullView::Starred { unread_urls, pager } => match event {
                EventView::Contents(page) => {
                    let pager = pager.take_page(page);
                    if pager.done() {
                        StatePullView::Done { unread_urls, starred_urls: known_urls(pager.items) }
                    } else {
                        StatePullView::Starred { unread_urls, pager }
                    }
                },
                _ => StatePullView::Broken(event.fault()),
            },
            StatePullView::Done { unread_urls, starred_urls } => self,
            StatePullView::Broken(_) => self,
        }
    }
}

/// Starts to pull the addresses that the server considers unread and starred.
pub fn server_state_sets(provider: Provider) -> (r: StatePull)
    ensures
        r.deep_view() == StatePullView::start(provider),
{
    match provider {
        Provider::Miniflux => StatePull::UnreadIds(IdPager::new(READING_LIST, Some(READ_TAG))),
        Provider::FreshRss => StatePull::Unread(StreamPager::new(READING_LIST, Some(READ_TAG))),
    }
}

impl StatePull {
    fn with_unread(unread: &Vec<Item>, starred_ids: Vec<String>) -> (r: Self)
        ensures
            r.deep_view() == StatePullView::with_unread(
                unread.deep_view(),
                starred_ids.deep_view(),
            ),
    {
        let unread_urls = urls_of(unread);
        if starred_ids.len() > 0 {
            StatePull::StarredItems { unread_urls, starred_ids }
        } else {
            let starred_urls: Vec<String> = Vec::new();
            assert(starred_urls.deep_view() =~= Seq::<Seq<char>>::empty());
            StatePull::Done { unread_urls, starred_urls }
        }
    }

    /// The next action, if the pull is not over.
    pub fn action(&self, session: &Session) -> (r: Option<Action>)
        ensures
            r.deep_view() == self.deep_view().action(session.deep_view()),
    {
        match self {
            StatePull::UnreadIds(pager) => Some(Action::Call(pager.request(session))),
            StatePull::StarredIds { unread_ids, ids } => Some(
                Action::Call(ids.request(session)),
            ),
            StatePull::UnreadItems { unread_ids, starred_ids } => {
                let ids = unread_ids.as_slice();
                assert(ids.deep_view() =~= unread_ids.deep_view());
                Some(Action::Call(session.items_by_id(ids)))
            },
            StatePull::StarredItems { unread_urls, starred_ids } => {
                let ids = starred_ids.as_slice();
                assert(ids.deep_view() =~= starred_ids.deep_view());
                Some(Action::Call(session.items_by_id(ids)))
            },
            StatePull::Unread(pager) => Some(Action::Call(pager.request(session))),
            StatePull::Starred { unread_urls, pager } => Some(Action::Call(pager.request(session))),
            StatePull::Done { unread_urls, starred_urls } => None,
            StatePull::Broken(_) => None,
        }
    }

    /// Takes in how the last action ended.
    pub fn accept(self, event: Event) -> (r: Self)
        ensures
            r.deep_view() == self.deep_view().accept(event.deep_view()),
    {
        match self {
            StatePull::UnreadIds(pager) => match event {
                Event::Ids(page) => {
                    let pager = pager.accept(page);
                    if pager.done() {
                        StatePull::StarredIds {
                            unread_ids: pager.ids,
                            ids: IdPager::new(STARRED_TAG, None),
                        }
                    } else {
                        StatePull::UnreadIds(pager)
                    }
                },
                _ => StatePull::Broken(event.fault()),
            },
            StatePull::StarredIds { unread_ids, ids } => match event {
                Event::Ids(page) => {
                    let ids = ids.accept(page);
                    if !ids.done() {
                        StatePull::StarredIds { unread_ids, ids }
                    } else if unread_ids.len() > 0 {
                        StatePull::UnreadItems { unread_ids, starred_ids: ids.ids }
                    } else {
                        let none: Vec<Item> = Vec::new();
                        assert(none.deep_view() =~= Seq::<ItemView>::empty());
                        StatePull::with_unread(&none, ids.ids)
                    }
                },
                _ => StatePull::Broken(event.fault()),
            },
            StatePull::UnreadItems { unread_ids, starred_ids } => match event {
                Event::Contents(page) => StatePull::with_unread(&page.items, starred_ids),
                _ => StatePull::Broken(event.fault()),
            },
            StatePull::StarredItems { unread_urls, starred_ids } => match event {
                Event::Contents(page) => StatePull::Done {
                    unread_urls,
                    starred_urls: urls_of(&page.items),
                },
                _ => StatePull::Broken(event.fault()),
            },
            StatePull::Unread(pager) => match event {
                Event::Contents(page) => {
                    let pager = pager.accept(page);
                    if pager.done() {
                        StatePull::Starred {
                            unread_urls: urls_of(&pager.items),
                            pager: StreamPager::new(STARRED_TAG, None),
                        }
                    } else {
                        StatePull::Unread(pager)
                    }
                },
                _ => StatePull::Broken(event.fault()),
            },
            StatePull::Starred { unread_urls, pager } => match event {
                Event::Contents(page) => {
                    let pager = pager.accept(page);
                    if pager.done() {
                        StatePull::Done { unread_urls, starred_urls: urls_of(&pager.items) }
                    } else {
                        StatePull::Starred { unread_urls, pager }
                    }
                },
                _ => StatePull::Broken(event.fault()),
            },
            StatePull::Done { unread_urls, starred_urls } => StatePull::Done {
                unread_urls,
                starred_urls,
            },
            StatePull::Broken(error) => StatePull::Broken(error),
        }
    }
}

impl PullView {
    /// The state after the events.
    pub open spec fn run(self, events: Seq<EventView>) -> PullView
        decreases events.len(),
    {
        if events.len() == 0 {
            self
        } else {
            self.run(events.drop_last()).accept(events.last())
        }
    }
}

/// Replies with these pages of items.
pub open spec fn contents(pages: Seq<ContentsView>) -> Seq<EventView> {
    pages.map_values(|page: ContentsView| EventView::Contents(page))
}

/// Replies with these pages of ids.
pub open spec fn id_lists(pages: Seq<IdListView>) -> Seq<EventView> {
    pages.map_values(|page: IdListView| EventView::Ids(page))
}

proof fn lemma_pull_run_on(start: PullView, a: Seq<EventView>, b: Seq<EventView>)
    ensures
        start.run(a + b) == start.run(a).run(b),
    decreases b.len(),
{
    if b.len() == 0 {
        assert(a + b =~= a);
    } else {
        lemma_pull_run_on(start, a, b.drop_last());
        assert((a + b).drop_last() =~= a + b.drop_last());
    }
}

proof fn lemma_unread_pages(pager: StreamPagerView, pages: Seq<ContentsView>, n: int)
    requires
        pager.reads(pages),
        0 <= n < pages.len(),
    ensures
        PullView::Unread(pager).run(contents(pages.take(n))) == PullView::Unread(
            pager.run(pages.take(n)),
        ),
    decreases n,
{
    if n > 0 {
        lemma_unread_pages(pager, pages, n - 1);
        assert(contents(pages.take(n)).drop_last() =~= contents(pages.take(n - 1)));
        assert(pages.take(n).drop_last() =~= pages.take(n - 1));
    }
}

proof fn lemma_starred_pages(
    unread: Seq<ItemView>,
    pager: StreamPagerView,
    pages: Seq<ContentsView>,
    n: int,
)
    requires
        pager.reads(pages),
        0 <= n < pages.len(),
    ensures
        (PullView::Starred { unread, pager }).run(contents(pages.take(n))) == (PullView::Starred {
            unread,
            pager: pager.run(pages.take(n)),
        }),
    decreases n,
{
    if n > 0 {
        lemma_starred_pages(unread, pager, pages, n - 1);
        assert(contents(pages.take(n)).drop_last() =~= contents(pages.take(n - 1)));
        assert(pages.take(n).drop_last() =~= pages.take(n - 1));
    }
}

/// From FreshRSS come the unread items and then the starred ones, with nothing
/// left out of what is read of the two streams.
pub proof fn law_pull_of_freshrss(unread: Seq<ContentsView>, starred: Seq<ContentsView>)
    requires
        StreamPagerView::start(READING_LIST@, Some(READ_TAG@)).reads(unread),
        StreamPagerView::start(STARRED_TAG@, None).reads(starred),
    ensures
        PullView::start(Provider::FreshRss).run(contents(unread) + contents(starred))
            == PullView::Done(all_items(unread) + all_items(starred)),
{
    let start = PullView::start(Provider::FreshRss);
    let first = StreamPagerView::start(READING_LIST@, Some(READ_TAG@));
    let second = StreamPagerView::start(STARRED_TAG@, None);
    assert(unread.len() > 0 && starred.len() > 0);
    let n = unread.len() as int;
    let m = starred.len() as int;
    lemma_unread_pages(first, unread, n - 1);
    assert(contents(unread).drop_last() =~= contents(unread.take(n - 1)));
    assert(unread.drop_last() =~= unread.take(n - 1));
    law_items_kept(first, unread);
    assert(Seq::<ItemView>::empty() + all_items(unread) =~= all_items(unread));
    assert(start.run(contents(unread)) == PullView::Starred {
        unread: all_items(unread),
        pager: second,
    });
    lemma_starred_pages(all_items(unread), second, starred, m - 1);
    assert(contents(starred).drop_last() =~= contents(starred.take(m - 1)));
    assert(starred.drop_last() =~= starred.take(m - 1));
    law_items_kept(second, starred);
    assert(Seq::<ItemView>::empty() + all_items(starred) =~= all_items(starred));
    lemma_pull_run_on(start, contents(unread), contents(starred));
}

/// How many requests it takes to fetch this many items by id.
pub open spec fn chunk_count(len: nat) -> nat {
    (len + CHUNK - 1) as nat / CHUNK as nat
}

/// The ids of the first `n` chunks, in order.
pub open spec fn chunks(ids: Seq<Seq<char>>, n: nat) -> Seq<Seq<char>>
    decreases n,
{
    if n == 0 {
        Seq::empty()
    } else {
        chunks(ids, (n - 1) as nat) + chunk(ids, ((n - 1) * CHUNK) as nat)
    }
}

/// The chunks hold every id once and in order, and none of them is empty or
/// larger than one request allows.
pub proof fn law_chunks_cover(ids: Seq<Seq<char>>, k: nat)
    ensures
        chunks(ids, chunk_count(ids.len())) == ids,
        k < chunk_count(ids.len()) ==> 0 < chunk(ids, k * CHUNK as nat).len() <= CHUNK,
{
    lemma_chunks(ids, chunk_count(ids.len()));
}

proof fn lemma_chunks(ids: Seq<Seq<char>>, n: nat)
    requires
        n <= chunk_count(ids.len()),
    ensures
        chunks(ids, n) == ids.take(
            if n * CHUNK <= ids.len() {
                n * CHUNK
            } else {
                ids.len() as int
            },
        ),
    decreases n,
{
    if n > 0 {
        let m = (n - 1) as nat;
        lemma_chunks(ids, m);
        let from = (m * CHUNK) as nat;
        assert(from < ids.len());
        let stop = chunk_end(ids.len(), from) as int;
        assert(ids.take(from as int) + ids.subrange(from as int, stop) =~= ids.take(stop));
    }
}

proof fn lemma_fetch_state(ids: Seq<Seq<char>>, pages: Seq<ContentsView>)
    requires
        pages.len() <= chunk_count(ids.len()),
    ensures
        PullView::fetched(ids, 0, Seq::empty()).run(contents(pages)) == if pages.len()
            < chunk_count(ids.len()) {
            PullView::Fetching { ids, next: pages.len() * CHUNK as nat, items: all_items(pages) }
        } else {
            PullView::Done(all_items(pages))
        },
    decreases pages.len(),
{
    if pages.len() > 0 {
        lemma_fetch_state(ids, pages.drop_last());
        assert(contents(pages).drop_last() =~= contents(pages.drop_last()));
    }
}

/// The items are fetched chunk by chunk, each request asking for the next chunk
/// of ids, and all that come back are kept in order.
pub proof fn law_items_fetched_in_chunks(
    ids: Seq<Seq<char>>,
    pages: Seq<ContentsView>,
    session: SessionView,
)
    requires
        pages.len() <= chunk_count(ids.len()),
    ensures
        ({
            let pull = PullView::fetched(ids, 0, Seq::empty()).run(contents(pages));
            if pages.len() < chunk_count(ids.len()) {
                pull.action(session) == Some(
                    ActionView::Call(session.items_call(chunk(ids, pages.len() * CHUNK as nat))),
                )
            } else {
                pull == PullView::Done(all_items(pages))
            }
        }),
{
    lemma_fetch_state(ids, pages);
}

proof fn lemma_id_pages(pager: IdPagerView, pages: Seq<IdListView>, n: int)
    requires
        pager.reads(pages),
        0 <= n < pages.len(),
    ensures
        PullView::Ids(pager).run(id_lists(pages.take(n))) == PullView::Ids(
            pager.run(pages.take(n)),
        ),
    decreases n,
{
    if n > 0 {
        lemma_id_pages(pager, pages, n - 1);
        assert(id_lists(pages.take(n)).drop_last() =~= id_lists(pages.take(n - 1)));
        assert(pages.take(n).drop_last() =~= pages.take(n - 1));
    }
}

/// From Miniflux come the items of the whole reading list, as far as its ids are
/// read.
pub proof fn law_pull_of_miniflux(ids: Seq<IdListView>, items: Seq<ContentsView>)
    requires
        IdPagerView::start(READING_LIST@, None).reads(ids),
        items.len() == chunk_count(all_ids(ids).len()),
    ensures
        PullView::start(Provider::Miniflux).run(id_lists(ids)) == PullView::fetched(
            all_ids(ids),
            0,
            Seq::empty(),
        ),
        PullView::start(Provider::Miniflux).run(id_lists(ids) + contents(items))
            == PullView::Done(all_items(items)),
{
    let start = PullView::start(Provider::Miniflux);
    let pager = IdPagerView::start(READING_LIST@, None);
    assert(ids.len() > 0);
    let n = ids.len() as int;
    lemma_id_pages(pager, ids, n - 1);
    assert(id_lists(ids).drop_last() =~= id_lists(ids.take(n - 1)));
    assert(ids.drop_last() =~= ids.take(n - 1));
    law_ids_kept(pager, ids);
    assert(Seq::<Seq<char>>::empty() + all_ids(ids) =~= all_ids(ids));
    lemma_fetch_state(all_ids(ids), items);
    lemma_pull_run_on(start, id_lists(ids), contents(items));
}

impl StatePullView {
    /// The state after the events.
    pub open spec fn run(self, events: Seq<EventView>) -> StatePullView
        decreases events.len(),
    {
        if events.len() == 0 {
            self
        } else {
            self.run(events.drop_last()).accept(events.last())
        }
    }
}

/// The known addresses are exactly those of the items that have one.
pub proof fn law_known_urls(items: Seq<ItemView>)
    ensures
        forall|url: Seq<char>|
            known_urls(items).contains(url) <==> exists|k: int|
                0 <= k < items.len() && (#[trigger] items[k]).url() == Some(url),
    decreases items.len(),
{
    if items.len() > 0 {
        let shorter = items.drop_last();
        let before = known_urls(shorter);
        let all = known_urls(items);
        law_known_urls(shorter);
        assert forall|url: Seq<char>|
            all.contains(url) <==> exists|k: int|
                0 <= k < items.len() && (#[trigger] items[k]).url() == Some(url) by {
            if all.contains(url) {
                let i = choose|i: int| 0 <= i < all.len() && all[i] == url;
                if i < before.len() {
                    assert(before[i] == url);
                    assert(before.contains(url));
                    let k = choose|k: int|
                        0 <= k < shorter.len() && (#[trigger] shorter[k]).url() == Some(url);
                    assert(items[k] == shorter[k]);
                } else {
                    assert(items[items.len() - 1] == items.last());
                }
            }
            if exists|k: int| 0 <= k < items.len() && (#[trigger] items[k]).url() == Some(url) {
                let k = choose|k: int|
                    0 <= k < items.len() && (#[trigger] items[k]).url() == Some(url);
                if k < shorter.len() {
                    assert(shorter[k] == items[k]);
                    assert(before.contains(url));
                    let i = choose|i: int| 0 <= i < before.len() && before[i] == url;
                    assert(all[i] == url);
                } else {
                    assert(all[before.len() as int] == url);
                }
            }
        }
    }
}

proof fn lemma_state_run_on(start: StatePullView, a: Seq<EventView>, b: Seq<EventView>)
    ensures
        start.run(a + b) == start.run(a).run(b),
    decreases b.len(),
{
    if b.len() == 0 {
        assert(a + b =~= a);
    } else {
        lemma_state_run_on(start, a, b.drop_last());
        assert((a + b).drop_last() =~= a + b.drop_last());
    }
}

proof fn lemma_state_unread_pages(pager: StreamPagerView, pages: Seq<ContentsView>, n: int)
    requires
        pager.reads(pages),
        0 <= n < pages.len(),
    ensures
        StatePullView::Unread(pager).run(contents(pages.take(n))) == StatePullView::Unread(
            pager.run(pages.take(n)),
        ),
    decreases n,
{
    if n > 0 {
        lemma_state_unread_pages(pager, pages, n - 1);
        assert(contents(pages.take(n)).drop_last() =~= contents(pages.take(n - 1)));
        assert(pages.take(n).drop_last() =~= pages.take(n - 1));
    }
}

proof fn lemma_state_starred_pages(
    unread_urls: Seq<Seq<char>>,
    pager: StreamPagerView,
    pages: Seq<ContentsView>,
    n: int,
)
    requires
        pager.reads(pages),
        0 <= n < pages.len(),
    ensures
        (StatePullView::Starred { unread_urls, pager }).run(contents(pages.take(n)))
            == (StatePullView::Starred { unread_urls, pager: pager.run(pages.take(n)) }),
    decreases n,
{
    if n > 0 {
        lemma_state_starred_pages(unread_urls, pager, pages, n - 1);
        assert(contents(pages.take(n)).drop_last() =~= contents(pages.take(n - 1)));
        assert(pages.take(n).drop_last() =~= pages.take(n - 1));
    }
}

/// From FreshRSS come the addresses of all items that are read of its unread and
/// of its starred stream.
pub proof fn law_states_of_freshrss(unread: Seq<ContentsView>, starred: Seq<ContentsView>)
    requires
        StreamPagerView::start(READING_LIST@, Some(READ_TAG@)).reads(unread),
        StreamPagerView::start(STARRED_TAG@, None).reads(starred),
    ensures
        StatePullView::start(Provider::FreshRss).run(contents(unread) + contents(starred)) == (
        StatePullView::Done {
            unread_urls: known_urls(all_items(unread)),
            starred_urls: known_urls(all_items(starred)),
        }),
{
    let start = StatePullView::start(Provider::FreshRss);
    let first = StreamPagerView::start(READING_LIST@, Some(READ_TAG@));
    let second = StreamPagerView::start(STARRED_TAG@, None);
    assert(unread.len() > 0 && starred.len() > 0);
    let n = unread.len() as int;
    let m = starred.len() as int;
    let unread_urls = known_urls(all_items(unread));
    lemma_state_unread_pages(first, unread, n - 1);
    assert(contents(unread).drop_last() =~= contents(unread.take(n - 1)));
    assert(unread.drop_last() =~= unread.take(n - 1));
    law_items_kept(first, unread);
    assert(Seq::<ItemView>::empty() + all_items(unread) =~= all_items(unread));
    assert(start.run(contents(unread)) == StatePullView::Starred { unread_urls, pager: second });
    lemma_state_starred_pages(unread_urls, second, starred, m - 1);
    assert(contents(starred).drop_last() =~= contents(starred.take(m - 1)));
    assert(starred.drop_last() =~= starred.take(m - 1));
    law_items_kept(second, starred);
    assert(Seq::<ItemView>::empty() + all_items(starred) =~= all_items(starred));
    lemma_state_run_on(start, contents(unread), contents(starred));
}

proof fn lemma_unread_id_pages(pager: IdPagerView, pages: Seq<IdListView>, n: int)
    requires
        pager.reads(pages),
        0 <= n < pages.len(),
    ensures
        StatePullView::UnreadIds(pager).run(id_lists(pages.take(n))) == StatePullView::UnreadIds(
            pager.run(pages.take(n)),
        ),
    decreases n,
{
    if n > 0 {
        lemma_unread_id_pages(pager, pages, n - 1);
        assert(id_lists(pages.take(n)).drop_last() =~= id_lists(pages.take(n - 1)));
        assert(pages.take(n).drop_last() =~= pages.take(n - 1));
    }
}

proof fn lemma_starred_id_pages(
    unread_ids: Seq<Seq<char>>,
    pager: IdPagerView,
    pages: Seq<IdListView>,
    n: int,
)
    requires
        pager.reads(pages),
        0 <= n < pages.len(),
    ensures
        (StatePullView::StarredIds { unread_ids, ids: pager }).run(id_lists(pages.take(n)))
            == (StatePullView::StarredIds { unread_ids, ids: pager.run(pages.take(n)) }),
    decreases n,
{
    if n > 0 {
        lemma_starred_id_pages(unread_ids, pager, pages, n - 1);
        assert(id_lists(pages.take(n)).drop_last() =~= id_lists(pages.take(n - 1)));
        assert(pages.take(n).drop_last() =~= pages.take(n - 1));
    }
}

/// From Miniflux come the addresses of the items with the ids that are read of
/// its unread and of its starred stream. Items are asked for only where there are
/// ids.
pub proof fn law_states_of_miniflux(
    unread: Seq<IdListView>,
    starred: Seq<IdListView>,
    unread_items: ContentsView,
    starred_items: ContentsView,
    session: SessionView,
)
    requires
        IdPagerView::start(READING_LIST@, Some(READ_TAG@)).reads(unread),
        IdPagerView::start(STARRED_TAG@, None).reads(starred),
    ensures
        ({
            let pull = StatePullView::start(Provider::Miniflux).run(
                id_lists(unread) + id_lists(starred),
            );
            let unread_ids = all_ids(unread);
            let starred_ids = all_ids(starred);
            let unread_urls = known_urls(unread_items.items);
            let starred_urls = known_urls(starred_items.items);
            let none = Seq::<Seq<char>>::empty();
            let unread_reply = EventView::Contents(unread_items);
            let starred_reply = EventView::Contents(starred_items);
            if unread_ids.len() > 0 && starred_ids.len() > 0 {
                &&& pull.action(session) == Some(ActionView::Call(session.items_call(unread_ids)))
                &&& pull.accept(unread_reply).action(session) == Some(
                    ActionView::Call(session.items_call(starred_ids)),
                )
                &&& pull.accept(unread_reply).accept(starred_reply) == (StatePullView::Done {
                    unread_urls,
                    starred_urls,
                })
            } else if unread_ids.len() > 0 {
                &&& pull.action(session) == Some(ActionView::Call(session.items_call(unread_ids)))
                &&& pull.accept(unread_reply) == (StatePullView::Done {
                    unread_urls,
                    starred_urls: none,
                })
            } else if starred_ids.len() > 0 {
                &&& pull.action(session) == Some(ActionView::Call(session.items_call(starred_ids)))
                &&& pull.accept(starred_reply) == (StatePullView::Done {
                    unread_urls: none,
                    starred_urls,
                })
            } else {
                pull == (StatePullView::Done { unread_urls: none, starred_urls: none })
            }
        }),
{
    let start = StatePullView::start(Provider::Miniflux);
    let first = IdPagerView::start(READING_LIST@, Some(READ_TAG@));
    let second = IdPagerView::start(STARRED_TAG@, None);
    assert(unread.len() > 0 && starred.len() > 0);
    let n = unread.len() as int;
    let m = starred.len() as int;
    lemma_unread_id_pages(first, unread, n - 1);
    assert(id_lists(unread).drop_last() =~= id_lists(unread.take(n - 1)));
    assert(unread.drop_last() =~= unread.take(n - 1));
    law_ids_kept(first, unread);
    assert(Seq::<Seq<char>>::empty() + all_ids(unread) =~= all_ids(unread));
    assert(start.run(id_lists(unread)) == StatePullView::StarredIds {
        unread_ids: all_ids(unread),
        ids: second,
    });
    lemma_starred_id_pages(all_ids(unread), second, starred, m - 1);
    assert(id_lists(starred).drop_last() =~= id_lists(starred.take(m - 1)));
    assert(starred.drop_last() =~= starred.take(m - 1));
    law_ids_kept(second, starred);
    assert(Seq::<Seq<char>>::empty() + all_ids(starred) =~= all_ids(starred));
    lemma_state_run_on(start, id_lists(unread), id_lists(starred));
    assert(known_urls(Seq::empty()) =~= Seq::<Seq<char>>::empty());
}

/// Each provider is asked only for what it serves: Miniflux for ids and for items
/// by id and never for the items of a stream, FreshRSS the other way round.
pub proof fn law_pull_suits_provider(provider: Provider, events: Seq<EventView>)
    ensures
        ({
            let pull = PullView::start(provider).run(events);
            let states = StatePullView::start(provider).run(events);
            match provider {
                Provider::Miniflux => {
                    &&& !(pull is Unread) && !(pull is Starred)
                    &&& !(states is Unread) && !(states is Starred)
                },
                Provider::FreshRss => {
                    &&& !(pull is Ids) && !(pull is Fetching)
                    &&& !(states is UnreadIds) && !(states is StarredIds)
                    &&& !(states is UnreadItems) && !(states is StarredItems)
                },
            }
        }),
    decreases events.len(),
{
    if events.len() > 0 {
        law_pull_suits_provider(provider, events.drop_last());
    }
}

impl PullView {
    /// What holds of the pull at every step.
    pub open spec fn wf(self) -> bool {
        match self {
            PullView::Ids(pager) => !pager.done(),
            PullView::Fetching { ids, next, items } => next < ids.len(),
            PullView::Unread(pager) => !pager.done(),
            PullView::Starred { unread, pager } => !pager.done(),
            _ => true,
        }
    }

    /// How far the pull is from its end.
    pub open spec fn left(self) -> (nat, nat) {
        match self {
            PullView::Ids(pager) => (1, pager.left),
            PullView::Fetching { ids, next, items } => (0, (ids.len() - next) as nat),
            PullView::Unread(pager) => (1, pager.left),
            PullView::Starred { unread, pager } => (0, pager.left),
            _ => (0, 0),
        }
    }
}

impl StatePullView {
    /// What holds of the pull at every step.
    pub open spec fn wf(self) -> bool {
        match self {
            StatePullView::UnreadIds(pager) => !pager.done(),
            StatePullView::StarredIds { unread_ids, ids } => !ids.done(),
            StatePullView::Unread(pager) => !pager.done(),
            StatePullView::Starred { unread_urls, pager } => !pager.done(),
            _ => true,
        }
    }

    /// How far the pull is from its end.
    pub open spec fn left(self) -> (nat, nat) {
        match self {
            StatePullView::UnreadIds(pager) => (3, pager.left),
            StatePullView::StarredIds { unread_ids, ids } => (2, ids.left),
            StatePullView::UnreadItems { unread_ids, starred_ids } => (1, 0),
            StatePullView::StarredItems { unread_urls, starred_ids } => (0, 0),
            StatePullView::Unread(pager) => (3, pager.left),
            StatePullView::Starred { unread_urls, pager } => (2, pager.left),
            _ => (0, 0),
        }
    }
}

/// Items are asked for by id in requests of five hundred, the last of which may be
/// smaller; each begins where the one before ended.
pub proof fn law_chunk_size(ids: Seq<Seq<char>>, from: nat)
    requires
        from <= ids.len(),
    ensures
        CHUNK == 500,
        chunk(ids, from) == ids.subrange(
            from as int,
            if from + 500 <= ids.len() {
                from as int + 500
            } else {
                ids.len() as int
            },
        ),
{
}

/// Where the pull of the articles begins: Miniflux is asked for the ids of the
/// whole reading list, FreshRSS for the unread items of it, and then for the
/// starred ones.
pub proof fn law_pull_begins(
    session: SessionView,
    pager: StreamPagerView,
    page: ContentsView,
)
    ensures
        PullView::start(Provider::Miniflux).action(session) == Some(
            ActionView::Call(
                session.ids_call("user/-/state/com.google/reading-list"@, None, None),
            ),
        ),
        PullView::start(Provider::FreshRss).action(session) == Some(
            ActionView::Call(
                session.stream_call(
                    "user/-/state/com.google/reading-list"@,
                    Some("user/-/state/com.google/read"@),
                    None,
                ),
            ),
        ),
        pager.take_page(page).done() ==> PullView::Unread(pager).accept(
            EventView::Contents(page),
        ).action(session) == Some(
            ActionView::Call(
                session.stream_call("user/-/state/com.google/starred"@, None, None),
            ),
        ),
{
}

/// Where the pull of the states begins: with what is unread of the reading list,
/// and then with what is starred, as ids from Miniflux and as items from FreshRSS.
pub proof fn law_state_pull_begins(
    session: SessionView,
    ids: IdPagerView,
    id_page: IdListView,
    pager: StreamPagerView,
    page: ContentsView,
)
    ensures
        StatePullView::start(Provider::Miniflux).action(session) == Some(
            ActionView::Call(
                session.ids_call(
                    "user/-/state/com.google/reading-list"@,
                    Some("user/-/state/com.google/read"@),
                    None,
                ),
            ),
        ),
        StatePullView::start(Provider::FreshRss).action(session) == Some(
            ActionView::Call(
                session.stream_call(
                    "user/-/state/com.google/reading-list"@,
                    Some("user/-/state/com.google/read"@),
                    None,
                ),
            ),
        ),
        ids.take_page(id_page).done() ==> StatePullView::UnreadIds(ids).accept(
            EventView::Ids(id_page),
        ).action(session) == Some(
            ActionView::Call(session.ids_call("user/-/state/com.google/starred"@, None, None)),
        ),
        pager.take_page(page).done() ==> StatePullView::Unread(pager).accept(
            EventView::Contents(page),
        ).action(session) == Some(
            ActionView::Call(
                session.stream_call("user/-/state/com.google/starred"@, None, None),
            ),
        ),
{
}

/// The known addresses stand in the order of the items, the first address of each
/// item that has one.
pub proof fn law_known_urls_in_order(items: Seq<ItemView>, item: ItemView)
    ensures
        known_urls(Seq::empty()).len() == 0,
        known_urls(items.push(item)) == if item.url() is Some {
            known_urls(items).push(item.url()->0)
        } else {
            known_urls(items)
        },
{
    assert(items.push(item).drop_last() =~= items);
}

/// A failure of the world outside breaks a pull, wherever it stands.
pub proof fn law_pull_failures(pull: PullView, states: StatePullView, event: EventView)
    requires
        event is Unreachable || event is Refused || event is Failed,
        !(pull is Done) && !(pull is Broken),
        !(states is Done) && !(states is Broken),
    ensures
        pull.accept(event) == PullView::Broken(SyncError::Outside),
        states.accept(event) == StatePullView::Broken(SyncError::Outside),
{
}

}
