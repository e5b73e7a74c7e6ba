//! What the item pass comes to: run against a local store that answers
//! faithfully, it takes in one item after the other. The store is modelled here by
//! plain maps.
use vstd::prelude::*;

use crate::data::{ItemView, NewArticleView};
use crate::item::{RenderJobView, RenderingView};
use crate::provider::Provider;
use crate::reconcile::{begin_from, lemma_begin_from, ItemPassView, ItemStageView};
use crate::world::{ActionView, EventView};

verus! {

/// The value under a key, if there is one.
pub open spec fn lookup<K, V>(map: Map<K, V>, key: K) -> Option<V> {
    if map.contains_key(key) {
        Some(map[key])
    } else {
        None
    }
}

/// The ids with one noted for an article, in place of the one that it had.
pub open spec fn with_id(ids: Map<Seq<char>, i64>, id: Seq<char>, article: i64) -> Map<
    Seq<char>,
    i64,
> {
    ids.remove_keys(
        Set::new(|k: Seq<char>| ids.contains_key(k) && ids[k] == article),
    ).insert(id, article)
}

/// A local store, as far as the item pass reads and changes it.
#[verifier::ext_equal]
pub struct Shelf {
    pub by_url: Map<Seq<char>, i64>,
    /// By the server's id, of which an article has at most one.
    pub by_remote_id: Map<Seq<char>, i64>,
    pub by_guid: Map<(i64, Seq<char>), i64>,
    /// The articles with a local change that was not sent yet.
    pub pending: Set<i64>,
    /// Read and starred, by article.
    pub state: Map<i64, (bool, bool)>,
    /// The id that an article of a feed gets under its guid when it is stored;
    /// one without an id here is not kept.
    pub assigned: Map<(i64, Seq<char>), i64>,
    /// How an item's texts and time are worked out.
    pub render: spec_fn(RenderJobView) -> RenderingView,
}

impl Shelf {
    /// The article is new to the store, and the store keeps it.
    pub open spec fn adds(self, feed: i64, guid: Seq<char>) -> bool {
        self.assigned.contains_key((feed, guid)) && !self.by_guid.contains_key((feed, guid))
    }

    /// The store after an article was stored. One that is there already stays as
    /// it is.
    pub open spec fn stored(self, feed: i64, new: NewArticleView) -> Shelf {
        if self.adds(feed, new.guid) {
            let article = self.assigned[(feed, new.guid)];
            Shelf {
                by_guid: self.by_guid.insert((feed, new.guid), article),
                by_url: match new.url {
                    Some(url) => self.by_url.insert(url, article),
                    None => self.by_url,
                },
                ..self
            }
        } else {
            self
        }
    }

    /// The faithful answer to an action.
    pub open spec fn answer(self, action: ActionView) -> EventView {
        match action {
            ActionView::FindByUrl(url) => EventView::Article(lookup(self.by_url, url)),
            ActionView::FindByRemoteId(id) => EventView::Article(lookup(self.by_remote_id, id)),
            ActionView::FindByGuid { feed, guid } => EventView::Article(
                lookup(self.by_guid, (feed, guid)),
            ),
            ActionView::Render(job) => EventView::Rendered((self.render)(job)),
            ActionView::StoreArticle { feed, new } => EventView::Imported(
                self.adds(feed, new.guid),
            ),
            ActionView::SetRemoteId { article, remote_id } => EventView::Stored,
            ActionView::AskPending(article) => EventView::Pending(self.pending.contains(article)),
            ActionView::SetState { article, read, starred } => EventView::Stored,
            ActionView::ClearQueue(article) => EventView::Stored,
            _ => EventView::Failed,
        }
    }

    /// The store after an action.
    pub open spec fn after(self, action: ActionView) -> Shelf {
        match action {
            ActionView::StoreArticle { feed, new } => self.stored(feed, new),
            ActionView::SetRemoteId { article, remote_id } => Shelf {
                by_remote_id: with_id(self.by_remote_id, remote_id, article),
                ..self
            },
            ActionView::SetState { article, read, starred } => Shelf {
                state: self.state.insert(article, (read, starred)),
                ..self
            },
            _ => self,
        }
    }

    /// The article under the first of the addresses, from the one at `i` on, that
    /// the store knows.
    pub open spec fn first_known(self, urls: Seq<Seq<char>>, i: nat) -> Option<i64>
        decreases urls.len() - i,
    {
        if i >= urls.len() {
            None
        } else if self.by_url.contains_key(urls[i as int]) {
            Some(self.by_url[urls[i as int]])
        } else {
            self.first_known(urls, i + 1)
        }
    }

    /// The article that an item is matched to: the one known under one of its
    /// addresses; with Miniflux, or else under its id, or else under its id within
    /// its feed.
    pub open spec fn article_for(
        self,
        provider: Provider,
        item: ItemView,
        feeds: Map<Seq<char>, i64>,
    ) -> Option<i64> {
        if self.first_known(item.urls(), 0) is Some || provider == Provider::FreshRss {
            self.first_known(item.urls(), 0)
        } else if self.by_remote_id.contains_key(item.id) {
            Some(self.by_remote_id[item.id])
        } else {
            match item.feed_in(feeds) {
                Some(feed) => lookup(self.by_guid, (feed, item.id)),
                None => None,
            }
        }
    }

    /// The store with an article aligned with an item: the item's id is noted, and
    /// the state is set unless a local change waits to be sent.
    pub open spec fn aligned(self, item: ItemView, article: i64) -> Shelf {
        Shelf {
            by_remote_id: with_id(self.by_remote_id, item.id, article),
            state: if self.pending.contains(article) {
                self.state
            } else {
                self.state.insert(article, (item.read(), item.starred()))
            },
            ..self
        }
    }

    /// The store once an item is imported into a feed.
    pub open spec fn imported(self, item: ItemView, feed: i64) -> Shelf {
        self.stored(feed, item.article(item.url(), (self.render)(item.job())))
    }

    /// The item is imported when it is taken in: it is matched to no article, and
    /// its feed is known.
    pub open spec fn imports(
        self,
        provider: Provider,
        item: ItemView,
        feeds: Map<Seq<char>, i64>,
    ) -> bool {
        self.article_for(provider, item, feeds) is None && item.feed_in(feeds) is Some
    }

    /// The article that an item stands for when it is taken in: the one that it is
    /// matched to, or the one that it becomes.
    pub open spec fn stands_for(
        self,
        provider: Provider,
        item: ItemView,
        feeds: Map<Seq<char>, i64>,
    ) -> Option<i64> {
        if self.imports(provider, item, feeds) {
            let feed = item.feed_in(feeds)->0;
            lookup(self.imported(item, feed).by_guid, (feed, item.id))
        } else {
            self.article_for(provider, item, feeds)
        }
    }

    /// The store with an item taken in: it is imported where it is new, and the
    /// article that it stands for is aligned with it.
    pub open spec fn with_item(
        self,
        provider: Provider,
        item: ItemView,
        feeds: Map<Seq<char>, i64>,
    ) -> Shelf {
        let shelf = if self.imports(provider, item, feeds) {
            self.imported(item, item.feed_in(feeds)->0)
        } else {
            self
        };
        match self.stands_for(provider, item, feeds) {
            Some(article) => shelf.aligned(item, article),
            None => shelf,
        }
    }
}

/// Items that were pulled from a server, and the local feeds of its streams.
pub struct Pulled {
    pub provider: Provider,
    pub items: Seq<ItemView>,
    pub feeds: Map<Seq<char>, i64>,
}

impl Pulled {
    /// The store with the items before `n` taken in, in order.
    pub open spec fn onto(self, shelf: Shelf, n: nat) -> Shelf
        decreases n,
    {
        if n == 0 {
            shelf
        } else {
            self.onto(shelf, (n - 1) as nat).with_item(
                self.provider,
                self.items[n - 1],
                self.feeds,
            )
        }
    }

    /// The item at `k` is imported when all are taken in.
    pub open spec fn imports(self, shelf: Shelf, k: int) -> bool {
        self.onto(shelf, k as nat).imports(self.provider, self.items[k], self.feeds)
    }

    /// The article that the item at `k` stands for when all are taken in.
    pub open spec fn article(self, shelf: Shelf, k: int) -> Option<i64> {
        self.onto(shelf, k as nat).stands_for(self.provider, self.items[k], self.feeds)
    }
}

/// An item pass at work on a store.
#[verifier::ext_equal]
pub struct Scene {
    pub pass: ItemPassView,
    pub shelf: Shelf,
}

impl Scene {
    /// After the next action, if there is one, and its answer.
    pub open spec fn step(self) -> Scene {
        match self.pass.action() {
            Some(action) => Scene {
                pass: self.pass.accept(self.shelf.answer(action)),
                shelf: self.shelf.after(action),
            },
            None => self,
        }
    }

    /// After `n` actions.
    pub open spec fn steps(self, n: nat) -> Scene
        decreases n,
    {
        if n == 0 {
            self
        } else {
            self.step().steps((n - 1) as nat)
        }
    }
}

proof fn lemma_steps_on(scene: Scene, a: nat, b: nat)
    ensures
        scene.steps(a + b) == scene.steps(a).steps(b),
    decreases a,
{
    if a > 0 {
        lemma_steps_on(scene.step(), (a - 1) as nat, b);
        assert((a + b - 1) as nat == (a - 1) as nat + b);
    }
}

/// The pass has gone on from the item at hand of `before` to the next one.
pub open spec fn moved_on(before: ItemPassView, after: ItemPassView) -> bool {
    &&& after.provider == before.provider
    &&& after.items == before.items
    &&& after.feeds == before.feeds
    &&& after.at == before.next_item().at
    &&& after.stage == before.next_item().stage
}

impl Scene {
    /// The next action stores an article.
    pub open spec fn stores(self) -> bool {
        self.pass.action() is Some && self.pass.action()->0 is StoreArticle
    }

    /// None of the next `n` actions stores an article.
    pub open spec fn stores_nothing(self, n: nat) -> bool {
        forall|m: nat| m < n ==> !(#[trigger] self.steps(m)).stores()
    }
}

proof fn lemma_stores_nothing_on(scene: Scene, a: nat, b: nat)
    requires
        scene.stores_nothing(a),
        scene.steps(a).stores_nothing(b),
    ensures
        scene.stores_nothing(a + b),
{
    assert forall|m: nat| m < a + b implies !(#[trigger] scene.steps(m)).stores() by {
        if m >= a {
            let d = (m - a) as nat;
            lemma_steps_on(scene, a, d);
            assert(m == a + d);
            assert(!scene.steps(a).steps(d).stores());
        }
    }
}

proof fn lemma_stores_nothing_once(scene: Scene)
    requires
        !scene.stores(),
    ensures
        scene.stores_nothing(1),
{
    assert forall|m: nat| m < 1 implies !(#[trigger] scene.steps(m)).stores() by {
        assert(m == 0);
    }
}

/// From the moment that an article is found.
proof fn lemma_found_steps(scene: Scene, article: i64) -> (n: nat)
    requires
        scene.pass.at < scene.pass.items.len(),
        scene.pass.stage == (ItemStageView::Noting { article }),
    ensures
        moved_on(scene.pass, scene.steps(n).pass),
        scene.steps(n).shelf == scene.shelf.aligned(scene.pass.item(), article),
        scene.stores_nothing(n),
{
    reveal_with_fuel(Scene::steps, 5);
    let shelf = scene.shelf;
    let end = shelf.aligned(scene.pass.item(), article);
    lemma_stores_nothing_once(scene);
    lemma_stores_nothing_once(scene.steps(1));
    lemma_stores_nothing_on(scene, 1, 1);
    if shelf.pending.contains(article) {
        assert(scene.steps(2).shelf =~= end);
        2
    } else {
        lemma_stores_nothing_once(scene.steps(2));
        lemma_stores_nothing_once(scene.steps(3));
        lemma_stores_nothing_on(scene, 2, 1);
        lemma_stores_nothing_on(scene, 3, 1);
        assert(scene.steps(4).shelf =~= end);
        4
    }
}

/// From the moment that the item is to be imported.
proof fn lemma_import_steps(scene: Scene, feed: i64) -> (n: nat)
    requires
        scene.pass.at < scene.pass.items.len(),
        scene.pass.stage == (ItemStageView::Rendering { feed }),
    ensures
        moved_on(scene.pass, scene.steps(n).pass),
        ({
            let item = scene.pass.item();
            let shelf = scene.shelf.imported(item, feed);
            scene.steps(n).shelf == match lookup(shelf.by_guid, (feed, item.id)) {
                Some(article) => shelf.aligned(item, article),
                None => shelf,
            }
        }),
{
    reveal_with_fuel(Scene::steps, 4);
    let third = scene.steps(3);
    let item = scene.pass.item();
    let shelf = scene.shelf.imported(item, feed);
    assert(third.shelf == shelf);
    match lookup(shelf.by_guid, (feed, item.id)) {
        Some(article) => {
            let n = lemma_found_steps(third, article);
            lemma_steps_on(scene, 3, n);
            3 + n
        },
        None => 3,
    }
}

/// From the search under the address at `i`, or from what comes after the last
/// address.
proof fn lemma_search_steps(scene: Scene, i: nat) -> (n: nat)
    requires
        scene.pass.at < scene.pass.items.len(),
        i <= scene.pass.item().urls().len(),
        Some(scene.pass.stage) == if i < scene.pass.item().urls().len() {
            Some(ItemStageView::ByUrl(i))
        } else {
            scene.pass.item().stage_past_urls(scene.pass.provider, scene.pass.feeds)
        },
        scene.shelf.first_known(scene.pass.item().urls(), 0) == scene.shelf.first_known(
            scene.pass.item().urls(),
            i,
        ),
    ensures
        moved_on(scene.pass, scene.steps(n).pass),
        scene.steps(n).shelf == scene.shelf.with_item(
            scene.pass.provider,
            scene.pass.item(),
            scene.pass.feeds,
        ),
        !scene.shelf.imports(scene.pass.provider, scene.pass.item(), scene.pass.feeds)
            ==> scene.stores_nothing(n),
    decreases scene.pass.item().urls().len() - i,
{
    reveal_with_fuel(Scene::steps, 3);
    let item = scene.pass.item();
    let urls = item.urls();
    let shelf = scene.shelf;
    let next = scene.step();
    assert(scene.steps(1) == next);
    lemma_stores_nothing_once(scene);
    if i < urls.len() {
        if shelf.by_url.contains_key(urls[i as int]) {
            let n = lemma_found_steps(next, shelf.by_url[urls[i as int]]);
            lemma_steps_on(scene, 1, n);
            lemma_stores_nothing_on(scene, 1, n);
            1 + n
        } else if i + 1 == urls.len() && item.stage_past_urls(
            scene.pass.provider,
            scene.pass.feeds,
        ) is None {
            assert(shelf.first_known(urls, i + 1) is None);
            1
        } else {
            let n = lemma_search_steps(next, i + 1);
            lemma_steps_on(scene, 1, n);
            if !shelf.imports(scene.pass.provider, item, scene.pass.feeds) {
                lemma_stores_nothing_on(scene, 1, n);
            }
            1 + n
        }
    } else if scene.pass.provider == Provider::FreshRss {
        lemma_import_steps(scene, item.feed_in(scene.pass.feeds)->0)
    } else if shelf.by_remote_id.contains_key(item.id) {
        let n = lemma_found_steps(next, shelf.by_remote_id[item.id]);
        lemma_steps_on(scene, 1, n);
        lemma_stores_nothing_on(scene, 1, n);
        1 + n
    } else {
        match item.feed_in(scene.pass.feeds) {
            Some(feed) => {
                let after = next.step();
                assert(scene.steps(2) == after);
                match lookup(shelf.by_guid, (feed, item.id)) {
                    Some(article) => {
                        let n = lemma_found_steps(after, article);
                        lemma_steps_on(scene, 2, n);
                        lemma_stores_nothing_once(next);
                        lemma_stores_nothing_on(scene, 1, 1);
                        lemma_stores_nothing_on(scene, 2, n);
                        2 + n
                    },
                    None => {
                        let n = lemma_import_steps(after, feed);
                        lemma_steps_on(scene, 2, n);
                        2 + n
                    },
                }
            },
            None => 1,
        }
    }
}

/// Against a store that answers faithfully, the pass takes an item in and goes on
/// to the next; it stores an article only where the item is one to import.
pub proof fn law_item_taken_in(scene: Scene) -> (n: nat)
    requires
        scene.pass.fresh(),
    ensures
        moved_on(scene.pass, scene.steps(n).pass),
        scene.steps(n).shelf == scene.shelf.with_item(
            scene.pass.provider,
            scene.pass.item(),
            scene.pass.feeds,
        ),
        !scene.shelf.imports(scene.pass.provider, scene.pass.item(), scene.pass.feeds)
            ==> scene.stores_nothing(n),
{
    lemma_search_steps(scene, 0)
}

impl Pulled {
    /// A pass over the items, at the beginning.
    pub open spec fn scene(self, shelf: Shelf) -> Scene {
        Scene { pass: ItemPassView::start(self.provider, self.items, self.feeds), shelf }
    }
}

/// Against a store that answers faithfully, the pass takes all items in, in order,
/// and ends; it stores no article where none of them is one to import.
pub proof fn law_items_taken_in(pulled: Pulled, shelf: Shelf) -> (n: nat)
    ensures
        pulled.scene(shelf).steps(n).pass.stage is Finished,
        pulled.scene(shelf).steps(n).shelf == pulled.onto(shelf, pulled.items.len()),
        (forall|k: int| 0 <= k < pulled.items.len() ==> !pulled.imports(shelf, k))
            ==> pulled.scene(shelf).stores_nothing(n),
{
    let n = lemma_items_steps(pulled, shelf, pulled.items.len());
    n
}

proof fn lemma_items_steps(pulled: Pulled, shelf: Shelf, k: nat) -> (n: nat)
    requires
        k <= pulled.items.len(),
    ensures
        ({
            let scene = pulled.scene(shelf).steps(n);
            let (at, stage) = begin_from(pulled.provider, pulled.items, pulled.feeds, k);
            &&& scene.pass.provider == pulled.provider
            &&& scene.pass.items == pulled.items
            &&& scene.pass.feeds == pulled.feeds
            &&& scene.pass.at == at
            &&& scene.pass.stage == stage
            &&& scene.shelf == pulled.onto(shelf, k)
        }),
        (forall|j: int| 0 <= j < k ==> !pulled.imports(shelf, j)) ==> pulled.scene(
            shelf,
        ).stores_nothing(n),
    decreases k,
{
    let start = pulled.scene(shelf);
    if k == 0 {
        0
    } else {
        let n = lemma_items_steps(pulled, shelf, (k - 1) as nat);
        let item = pulled.items[k - 1];
        let scene = start.steps(n);
        if item.first_stage(pulled.provider, pulled.feeds) is None {
            assert(scene.shelf.first_known(item.urls(), 0) is None);
            n
        } else {
            let m = law_item_taken_in(scene);
            lemma_steps_on(start, n, m);
            if forall|j: int| 0 <= j < k ==> !pulled.imports(shelf, j) {
                assert(!pulled.imports(shelf, k - 1));
                assert forall|j: int| 0 <= j < k - 1 implies !pulled.imports(shelf, j) by {}
                lemma_stores_nothing_on(start, n, m);
            }
            n + m
        }
    }
}

/// An item changes the state of at most its own article, and only where no local
/// change waits to be sent; that article then has exactly the state that the item
/// reports.
pub proof fn law_item_sets_own_state(
    shelf: Shelf,
    provider: Provider,
    item: ItemView,
    feeds: Map<Seq<char>, i64>,
    article: i64,
)
    ensures
        ({
            let after = shelf.with_item(provider, item, feeds);
            let own = shelf.stands_for(provider, item, feeds);
            &&& after.pending == shelf.pending
            &&& lookup(after.state, article) == if own == Some(article)
                && !shelf.pending.contains(article) {
                Some((item.read(), item.starred()))
            } else {
                lookup(shelf.state, article)
            }
        }),
{
}

/// An item of FreshRSS is matched by address alone: where none of its addresses is
/// known, no article gets its id or its state but the one that it is imported as,
/// whatever ids the store holds.
pub proof fn law_freshrss_item_matched_by_url(
    shelf: Shelf,
    item: ItemView,
    feeds: Map<Seq<char>, i64>,
)
    requires
        shelf.first_known(item.urls(), 0) is None,
    ensures
        shelf.article_for(Provider::FreshRss, item, feeds) is None,
        item.feed_in(feeds) is None ==> shelf.with_item(Provider::FreshRss, item, feeds) == shelf,
        item.feed_in(feeds) is Some ==> shelf.imports(Provider::FreshRss, item, feeds),
{
}

/// After all items, an article with a local change that waits to be sent has the
/// state that it had; and every article has the state that it had or one that an
/// item that stands for it reports.
pub proof fn law_states_in_the_end(pulled: Pulled, shelf: Shelf, n: nat, article: i64)
    requires
        n <= pulled.items.len(),
    ensures
        ({
            let after = pulled.onto(shelf, n);
            &&& after.pending == shelf.pending
            &&& shelf.pending.contains(article) ==> lookup(after.state, article) == lookup(
                shelf.state,
                article,
            )
            &&& lookup(after.state, article) == lookup(shelf.state, article) || exists|k: int|
                0 <= k < n && #[trigger] pulled.article(shelf, k) == Some(article) && lookup(
                    after.state,
                    article,
                ) == Some((pulled.items[k].read(), pulled.items[k].starred()))
        }),
    decreases n,
{
    if n > 0 {
        law_states_in_the_end(pulled, shelf, (n - 1) as nat, article);
        let before = pulled.onto(shelf, (n - 1) as nat);
        let item = pulled.items[n - 1];
        law_item_sets_own_state(before, pulled.provider, item, pulled.feeds, article);
        assert(pulled.article(shelf, n - 1) == before.stands_for(
            pulled.provider,
            item,
            pulled.feeds,
        ));
    }
}

/// The last report counts: where an item stands for an article, no later one does,
/// and no local change waits to be sent, the article ends with exactly the state
/// that this item reports.
pub proof fn law_last_report_counts(
    pulled: Pulled,
    shelf: Shelf,
    k: int,
    n: nat,
    article: i64,
)
    requires
        0 <= k < n <= pulled.items.len(),
        pulled.article(shelf, k) == Some(article),
        forall|j: int| k < j < n ==> #[trigger] pulled.article(shelf, j) != Some(article),
        !shelf.pending.contains(article),
    ensures
        lookup(pulled.onto(shelf, n).state, article) == Some(
            (pulled.items[k].read(), pulled.items[k].starred()),
        ),
    decreases n,
{
    let p = (n - 1) as nat;
    law_states_in_the_end(pulled, shelf, p, article);
    law_item_sets_own_state(
        pulled.onto(shelf, p),
        pulled.provider,
        pulled.items[p as int],
        pulled.feeds,
        article,
    );
    if k < p {
        assert(pulled.article(shelf, p as int) != Some(article));
        law_last_report_counts(pulled, shelf, k, p, article);
    }
}

/// Taking an item in a second time right away changes nothing.
pub proof fn law_item_taken_in_once(
    shelf: Shelf,
    provider: Provider,
    item: ItemView,
    feeds: Map<Seq<char>, i64>,
)
    ensures
        shelf.with_item(provider, item, feeds).with_item(provider, item, feeds)
            == shelf.with_item(provider, item, feeds),
{
    let urls = item.urls();
    let after = shelf.with_item(provider, item, feeds);
    if shelf.imports(provider, item, feeds) {
        let feed = item.feed_in(feeds)->0;
        if shelf.adds(feed, item.id) {
            let article = shelf.assigned[(feed, item.id)];
            if urls.len() > 0 {
                assert(after.by_url.contains_key(urls[0]));
                assert(after.first_known(urls, 0) == Some(article));
            } else {
                assert(after.first_known(urls, 0) is None);
            }
            assert(after.stands_for(provider, item, feeds) == Some(article));
        } else {
            lemma_known_unchanged(shelf, after, urls, 0);
        }
    } else if shelf.article_for(provider, item, feeds) is Some {
        lemma_known_unchanged(shelf, after, urls, 0);
    }
    if let Some(article) = shelf.stands_for(provider, item, feeds) {
        let ids = shelf.by_remote_id;
        assert(with_id(with_id(ids, item.id, article), item.id, article) =~= with_id(
            ids,
            item.id,
            article,
        ));
        assert(after.stands_for(provider, item, feeds) == Some(article));
    }
    assert(after.with_item(provider, item, feeds) =~= after);
}

proof fn lemma_known_unchanged(a: Shelf, b: Shelf, urls: Seq<Seq<char>>, i: nat)
    requires
        a.by_url == b.by_url,
    ensures
        a.first_known(urls, i) == b.first_known(urls, i),
    decreases urls.len() - i,
{
    if i < urls.len() {
        lemma_known_unchanged(a, b, urls, i + 1);
    }
}

}
