//! Taking the same items in once more: a second run over the same server imports
//! nothing again.
use vstd::prelude::*;

use crate::data::ItemView;
use crate::provider::Provider;
use crate::shelf::{law_items_taken_in, lookup, with_id, Pulled, Shelf};

verus! {

impl Shelf {
    /// No two of the server's ids belong to one article.
    pub open spec fn one_id_each(self) -> bool {
        forall|a: Seq<char>, b: Seq<char>|
            #![trigger self.by_remote_id[a], self.by_remote_id[b]]
            self.by_remote_id.contains_key(a) && self.by_remote_id.contains_key(b)
                && self.by_remote_id[a] == self.by_remote_id[b] ==> a == b
    }
}

impl Pulled {
    /// The feed of the item at `k`, if it is known.
    pub open spec fn feed(self, k: int) -> Option<i64> {
        self.items[k].feed_in(self.feeds)
    }

    /// The store keeps the item at `k` when it is imported.
    pub open spec fn keeps(self, shelf: Shelf, k: int) -> bool {
        shelf.assigned.contains_key((self.feed(k)->0, self.items[k].id))
    }

    /// The store keeps every item of a known feed that is imported.
    pub open spec fn kept_by(self, shelf: Shelf) -> bool {
        forall|k: int|
            0 <= k < self.items.len() && self.feed(k) is Some ==> #[trigger] self.keeps(shelf, k)
    }

    /// The item at `k` is imported as a new article when all are taken in.
    pub open spec fn adds(self, shelf: Shelf, k: int) -> bool {
        self.imports(shelf, k) && self.onto(shelf, k as nat).adds(
            self.feed(k)->0,
            self.items[k].id,
        )
    }

    /// No two items stand for one article, and items with one id are of one feed.
    pub open spec fn apart(self, shelf: Shelf) -> bool {
        &&& forall|j: int, k: int|
            #![trigger self.article(shelf, j), self.article(shelf, k)]
            0 <= j < k < self.items.len() && self.article(shelf, j) is Some ==> self.article(
                shelf,
                j,
            ) != self.article(shelf, k)
        &&& forall|j: int, k: int|
            #![trigger self.items[j], self.items[k]]
            0 <= j < k < self.items.len() && self.items[j].id == self.items[k].id ==> self.feed(j)
                == self.feed(k)
    }

    /// Every item of a known feed has an address.
    pub open spec fn addressed(self) -> bool {
        forall|k: int|
            #![trigger self.items[k]]
            0 <= k < self.items.len() && self.feed(k) is Some ==> self.items[k].urls().len() > 0
    }

    /// The store with all items taken in.
    pub open spec fn all_onto(self, shelf: Shelf) -> Shelf {
        self.onto(shelf, self.items.len())
    }

    /// The last item before `n` with this id that stands for an article.
    pub open spec fn last_with(self, shelf: Shelf, id: Seq<char>, n: int) -> Option<int>
        decreases n,
    {
        if n <= 0 {
            None
        } else if self.items[n - 1].id == id && self.article(shelf, n - 1) is Some {
            Some(n - 1)
        } else {
            self.last_with(shelf, id, n - 1)
        }
    }
}

/// The first known address, from `i` on, with none known before it.
proof fn lemma_first_known(shelf: Shelf, urls: Seq<Seq<char>>, i: nat) -> (at: int)
    requires
        shelf.first_known(urls, i) is Some,
    ensures
        i <= at < urls.len(),
        shelf.by_url.contains_key(urls[at]),
        shelf.first_known(urls, i) == Some(shelf.by_url[urls[at]]),
        forall|j: int| i <= j < at ==> !shelf.by_url.contains_key(#[trigger] urls[j]),
    decreases urls.len() - i,
{
    if shelf.by_url.contains_key(urls[i as int]) {
        i as int
    } else {
        lemma_first_known(shelf, urls, i + 1)
    }
}

proof fn lemma_none_known(shelf: Shelf, urls: Seq<Seq<char>>, i: nat, j: int)
    requires
        shelf.first_known(urls, i) is None,
        i <= j < urls.len(),
    ensures
        !shelf.by_url.contains_key(urls[j]),
    decreases urls.len() - i,
{
    if i < j {
        lemma_none_known(shelf, urls, i + 1, j);
    }
}

proof fn lemma_some_known(shelf: Shelf, urls: Seq<Seq<char>>, j: int)
    requires
        0 <= j < urls.len(),
        shelf.by_url.contains_key(urls[j]),
    ensures
        shelf.first_known(urls, 0) is Some,
{
    if shelf.first_known(urls, 0) is None {
        lemma_none_known(shelf, urls, 0, j);
    }
}

/// What is known under addresses and guids stays known as it is when an item is
/// taken in.
proof fn lemma_item_grows(
    shelf: Shelf,
    provider: Provider,
    item: ItemView,
    feeds: Map<Seq<char>, i64>,
)
    ensures
        ({
            let after = shelf.with_item(provider, item, feeds);
            &&& after.assigned == shelf.assigned
            &&& forall|url: Seq<char>| #[trigger]
                shelf.by_url.contains_key(url) ==> after.by_url.contains_key(url)
                    && after.by_url[url] == shelf.by_url[url]
            &&& forall|key: (i64, Seq<char>)| #[trigger]
                shelf.by_guid.contains_key(key) ==> after.by_guid.contains_key(key)
                    && after.by_guid[key] == shelf.by_guid[key]
            &&& shelf.one_id_each() ==> after.one_id_each()
        }),
{
    if shelf.imports(provider, item, feeds) && item.urls().len() > 0 {
        lemma_none_known(shelf, item.urls(), 0, 0);
    }
    if let Some(article) = shelf.stands_for(provider, item, feeds) {
        if shelf.one_id_each() {
            let ids = with_id(shelf.by_remote_id, item.id, article);
            assert forall|a: Seq<char>, b: Seq<char>|
                #![trigger ids[a], ids[b]]
                ids.contains_key(a) && ids.contains_key(b) && ids[a] == ids[b] implies a == b by {
                if a != item.id && b != item.id {
                    assert(shelf.by_remote_id[a] == ids[a] && shelf.by_remote_id[b] == ids[b]);
                }
            }
        }
    }
}

/// What is known under addresses and guids stays known as it is when items are
/// taken in.
proof fn lemma_grows(pulled: Pulled, shelf: Shelf, m: nat, n: nat)
    requires
        m <= n <= pulled.items.len(),
    ensures
        ({
            let before = pulled.onto(shelf, m);
            let after = pulled.onto(shelf, n);
            &&& after.assigned == before.assigned
            &&& forall|url: Seq<char>| #[trigger]
                before.by_url.contains_key(url) ==> after.by_url.contains_key(url)
                    && after.by_url[url] == before.by_url[url]
            &&& forall|key: (i64, Seq<char>)| #[trigger]
                before.by_guid.contains_key(key) ==> after.by_guid.contains_key(key)
                    && after.by_guid[key] == before.by_guid[key]
            &&& before.one_id_each() ==> after.one_id_each()
        }),
    decreases n - m,
{
    if m < n {
        let p = (n - 1) as nat;
        lemma_grows(pulled, shelf, m, p);
        lemma_item_grows(
            pulled.onto(shelf, p),
            pulled.provider,
            pulled.items[p as int],
            pulled.feeds,
        );
    }
}

/// An item that is imported as a new article stands for the one that the store
/// assigns to it, and is known under its guid and under its first address from
/// then on.
proof fn lemma_imported(pulled: Pulled, shelf: Shelf, k: int, n: nat)
    requires
        0 <= k < n <= pulled.items.len(),
        pulled.adds(shelf, k),
    ensures
        ({
            let after = pulled.onto(shelf, n);
            let item = pulled.items[k];
            let key = (pulled.feed(k)->0, item.id);
            let article = shelf.assigned[key];
            &&& pulled.article(shelf, k) == Some(article)
            &&& after.by_guid.contains_key(key) && after.by_guid[key] == article
            &&& item.urls().len() > 0 ==> after.by_url.contains_key(item.urls()[0])
                && after.by_url[item.urls()[0]] == article
        }),
{
    let item = pulled.items[k];
    lemma_grows(pulled, shelf, 0, k as nat);
    lemma_grows(pulled, shelf, (k + 1) as nat, n);
    let before = pulled.onto(shelf, k as nat);
    let next = pulled.onto(shelf, (k + 1) as nat);
    let feed = pulled.feed(k)->0;
    let key = (feed, item.id);
    let article = shelf.assigned[key];
    let stored = before.imported(item, feed);
    assert(pulled.onto(shelf, 0) == shelf);
    assert(stored.by_guid.contains_key(key) && stored.by_guid[key] == article);
    assert(pulled.article(shelf, k) == Some(article));
    assert(next == before.with_item(pulled.provider, item, pulled.feeds));
    assert(next.by_url == stored.by_url && next.by_guid == stored.by_guid);
    if item.urls().len() > 0 {
        assert(item.url() == Some(item.urls()[0]));
        assert(next.by_url.contains_key(item.urls()[0]));
    }
}

/// With Miniflux, an item that is imported is a new article where the store keeps
/// it.
proof fn lemma_import_adds(pulled: Pulled, shelf: Shelf, k: int)
    requires
        pulled.provider == Provider::Miniflux,
        0 <= k < pulled.items.len(),
        pulled.imports(shelf, k),
        pulled.keeps(shelf, k),
    ensures
        pulled.adds(shelf, k),
{
    lemma_grows(pulled, shelf, 0, k as nat);
    assert(pulled.onto(shelf, 0) == shelf);
}

/// An address that becomes known while items are taken in is that of an item that
/// is imported.
proof fn lemma_url_origin(pulled: Pulled, shelf: Shelf, m: nat, n: nat, url: Seq<char>) -> (q: int)
    requires
        m <= n <= pulled.items.len(),
        pulled.onto(shelf, n).by_url.contains_key(url),
        !pulled.onto(shelf, m).by_url.contains_key(url),
    ensures
        m <= q < n,
        pulled.imports(shelf, q),
        pulled.article(shelf, q) == Some(pulled.onto(shelf, n).by_url[url]),
    decreases n - m,
{
    let p = (n - 1) as nat;
    let before = pulled.onto(shelf, p);
    let item = pulled.items[p as int];
    if before.by_url.contains_key(url) {
        lemma_item_grows(before, pulled.provider, item, pulled.feeds);
        lemma_url_origin(pulled, shelf, m, p, url)
    } else {
        assert(pulled.adds(shelf, p as int));
        lemma_imported(pulled, shelf, p as int, n);
        p as int
    }
}

/// In the first run the store holds, under the id of an item, the article of the
/// last item with this id.
proof fn lemma_ids_hold(pulled: Pulled, shelf: Shelf, n: nat, id: Seq<char>)
    requires
        n <= pulled.items.len(),
        pulled.apart(shelf),
        pulled.last_with(shelf, id, n as int) is Some,
    ensures
        ({
            let l = pulled.last_with(shelf, id, n as int)->0;
            &&& 0 <= l < n
            &&& pulled.items[l].id == id
            &&& pulled.article(shelf, l) is Some
            &&& lookup(pulled.onto(shelf, n).by_remote_id, id) == pulled.article(shelf, l)
        }),
    decreases n,
{
    let p = (n - 1) as nat;
    let item = pulled.items[p as int];
    let before = pulled.onto(shelf, p);
    let own = pulled.article(shelf, p as int);
    assert(own == before.stands_for(pulled.provider, item, pulled.feeds));
    if !(item.id == id && own is Some) {
        lemma_ids_hold(pulled, shelf, p, id);
        let l = pulled.last_with(shelf, id, p as int)->0;
        assert(pulled.article(shelf, l) != own);
    }
}

/// An item before `n` that stands for an article is followed by a last one with
/// its id.
proof fn lemma_last_exists(pulled: Pulled, shelf: Shelf, x: int, n: int)
    requires
        0 <= x < n <= pulled.items.len(),
        pulled.article(shelf, x) is Some,
    ensures
        pulled.last_with(shelf, pulled.items[x].id, n) is Some,
        pulled.last_with(shelf, pulled.items[x].id, n)->0 >= x,
    decreases n,
{
    if x < n - 1 && !(pulled.items[n - 1].id == pulled.items[x].id && pulled.article(
        shelf,
        n - 1,
    ) is Some) {
        lemma_last_exists(pulled, shelf, x, n - 1);
    }
}

impl Pulled {
    /// In the first run the item at `x` is matched by its id and not by address.
    pub open spec fn matched_by_id(self, shelf: Shelf, x: int) -> bool {
        let before = self.onto(shelf, x as nat);
        &&& before.first_known(self.items[x].urls(), 0) is None
        &&& before.by_remote_id.contains_key(self.items[x].id)
    }

    /// What holds in the second run before the item at `i`: nothing has been
    /// imported, and the items from `i` on that were matched by id in the first
    /// run are known by it.
    pub open spec fn second_run_at(self, shelf: Shelf, i: nat) -> bool {
        let end = self.all_onto(shelf);
        let now = self.onto(end, i);
        &&& now.by_url == end.by_url
        &&& now.by_guid == end.by_guid
        &&& now.one_id_each()
        &&& forall|x: int|
            #![trigger self.items[x]]
            i <= x < self.items.len() && self.feed(x) is Some && self.matched_by_id(shelf, x)
                ==> lookup(now.by_remote_id, self.items[x].id) == self.article(
                shelf,
                self.last_with(shelf, self.items[x].id, self.items.len() as int)->0,
            )
    }
}

/// An item of a known feed stands for an article.
proof fn lemma_stands(pulled: Pulled, shelf: Shelf, k: int)
    requires
        pulled.provider == Provider::Miniflux,
        0 <= k < pulled.items.len(),
        pulled.kept_by(shelf),
        pulled.feed(k) is Some,
    ensures
        pulled.article(shelf, k) is Some,
{
    if pulled.imports(shelf, k) {
        assert(pulled.keeps(shelf, k));
        lemma_import_adds(pulled, shelf, k);
        lemma_imported(pulled, shelf, k, (k + 1) as nat);
    }
}

/// With Miniflux, an item that is matched by its id, or imported, comes after none
/// with the same id.
proof fn lemma_first_with_id(pulled: Pulled, shelf: Shelf, x: int, l: int)
    requires
        pulled.provider == Provider::Miniflux,
        pulled.kept_by(shelf),
        pulled.apart(shelf),
        0 <= l < x < pulled.items.len(),
        pulled.feed(x) is Some,
        pulled.items[l].id == pulled.items[x].id,
    ensures
        !pulled.matched_by_id(shelf, x),
        !pulled.imports(shelf, x),
{
    assert(pulled.feed(l) == pulled.feed(x));
    lemma_stands(pulled, shelf, l);
    lemma_last_exists(pulled, shelf, l, x);
    lemma_ids_hold(pulled, shelf, x as nat, pulled.items[x].id);
    let m = pulled.last_with(shelf, pulled.items[x].id, x)->0;
    let before = pulled.onto(shelf, x as nat);
    assert(before.by_remote_id.contains_key(pulled.items[x].id));
    if pulled.matched_by_id(shelf, x) {
        assert(pulled.article(shelf, x) == pulled.article(shelf, m));
    }
}

/// In the second run an item is known.
proof fn lemma_known_again(pulled: Pulled, shelf: Shelf, i: nat)
    requires
        pulled.provider == Provider::Miniflux,
        pulled.kept_by(shelf),
        pulled.apart(shelf),
        i < pulled.items.len(),
        pulled.second_run_at(shelf, i),
    ensures
        !pulled.imports(pulled.all_onto(shelf), i as int),
        ({
            let now = pulled.onto(pulled.all_onto(shelf), i);
            let item = pulled.items[i as int];
            // Known by guid alone, it stands for the article of the first run.
            pulled.feed(i as int) is Some && now.first_known(item.urls(), 0) is None
                && !now.by_remote_id.contains_key(item.id) ==> lookup(
                now.by_guid,
                (pulled.feed(i as int)->0, item.id),
            ) == pulled.article(shelf, i as int)
        }),
{
    let n = pulled.items.len();
    let end = pulled.all_onto(shelf);
    let now = pulled.onto(end, i);
    let first = pulled.onto(shelf, i);
    let item = pulled.items[i as int];
    let urls = item.urls();
    if let Some(feed) = pulled.feed(i as int) {
        lemma_grows(pulled, shelf, i, n);
        if first.first_known(urls, 0) is Some {
            let at = lemma_first_known(first, urls, 0);
            lemma_some_known(now, urls, at);
        } else if first.by_remote_id.contains_key(item.id) {
            assert(pulled.matched_by_id(shelf, i as int));
            lemma_stands(pulled, shelf, i as int);
            lemma_last_exists(pulled, shelf, i as int, n as int);
            lemma_ids_hold(pulled, shelf, n, item.id);
            assert(now.by_remote_id.contains_key(item.id));
        } else if first.by_guid.contains_key((feed, item.id)) {
            assert(now.by_guid.contains_key((feed, item.id)));
        } else {
            assert(pulled.imports(shelf, i as int));
            assert(pulled.keeps(shelf, i as int));
            lemma_import_adds(pulled, shelf, i as int);
            lemma_imported(pulled, shelf, i as int, n);
        }
    }
}

/// In the second run an item does not take the article of one that is known by its
/// id alone.
proof fn lemma_not_taken_over(pulled: Pulled, shelf: Shelf, i: nat, x: int)
    requires
        pulled.provider == Provider::Miniflux,
        pulled.kept_by(shelf),
        pulled.apart(shelf),
        i < x < pulled.items.len(),
        pulled.second_run_at(shelf, i),
        pulled.feed(x) is Some,
        pulled.matched_by_id(shelf, x),
    ensures
        ({
            let end = pulled.all_onto(shelf);
            let l = pulled.last_with(shelf, pulled.items[x].id, pulled.items.len() as int)->0;
            &&& pulled.items[i as int].id != pulled.items[x].id
            &&& pulled.article(shelf, l) is Some
            &&& pulled.article(end, i as int) != pulled.article(shelf, l)
        }),
{
    let n = pulled.items.len();
    let end = pulled.all_onto(shelf);
    let now = pulled.onto(end, i);
    let first = pulled.onto(shelf, i);
    let item = pulled.items[i as int];
    let id = pulled.items[x].id;
    let urls = item.urls();
    lemma_stands(pulled, shelf, x);
    lemma_last_exists(pulled, shelf, x, n as int);
    lemma_ids_hold(pulled, shelf, n, id);
    let l = pulled.last_with(shelf, id, n as int)->0;
    if item.id == id {
        lemma_first_with_id(pulled, shelf, x, i as int);
    }
    assert(pulled.article(shelf, i as int) != pulled.article(shelf, l));
    lemma_known_again(pulled, shelf, i);
    if now.first_known(urls, 0) is Some {
        let at = lemma_first_known(now, urls, 0);
        lemma_grows(pulled, shelf, i, n);
        if first.by_url.contains_key(urls[at]) {
            // The same address was the first known one before.
            lemma_some_known(first, urls, at);
            let was = lemma_first_known(first, urls, 0);
            assert(was == at) by {
                if was < at {
                    assert(now.by_url.contains_key(urls[was]));
                }
            }
        } else {
            let q = lemma_url_origin(pulled, shelf, i, n, urls[at]);
            if q == l {
                // The last item with the id was not imported.
                if l > x {
                    assert(pulled.feed(x) == pulled.feed(l));
                    lemma_first_with_id(pulled, shelf, l, x);
                }
            }
        }
    } else if now.by_remote_id.contains_key(item.id) {
        assert(now.by_remote_id[item.id] != now.by_remote_id[id]);
    }
}

proof fn lemma_second_run(pulled: Pulled, shelf: Shelf, i: nat)
    requires
        pulled.provider == Provider::Miniflux,
        shelf.one_id_each(),
        pulled.kept_by(shelf),
        pulled.apart(shelf),
        i <= pulled.items.len(),
    ensures
        pulled.second_run_at(shelf, i),
    decreases i,
{
    let n = pulled.items.len();
    let end = pulled.all_onto(shelf);
    let now = pulled.onto(end, i);
    if i == 0 {
        lemma_grows(pulled, shelf, 0, n);
        assert forall|x: int|
            #![trigger pulled.items[x]]
            0 <= x < n && pulled.feed(x) is Some && pulled.matched_by_id(
                shelf,
                x,
            ) implies lookup(now.by_remote_id, pulled.items[x].id) == pulled.article(
            shelf,
            pulled.last_with(shelf, pulled.items[x].id, n as int)->0,
        ) by {
            lemma_stands(pulled, shelf, x);
            lemma_last_exists(pulled, shelf, x, n as int);
            lemma_ids_hold(pulled, shelf, n, pulled.items[x].id);
        }
    } else {
        let p = (i - 1) as nat;
        let item = pulled.items[p as int];
        let before = pulled.onto(end, p);
        lemma_second_run(pulled, shelf, p);
        lemma_known_again(pulled, shelf, p);
        lemma_item_grows(before, pulled.provider, item, pulled.feeds);
        assert(now == before.with_item(pulled.provider, item, pulled.feeds));
        assert forall|x: int|
            #![trigger pulled.items[x]]
            i <= x < n && pulled.feed(x) is Some && pulled.matched_by_id(
                shelf,
                x,
            ) implies lookup(now.by_remote_id, pulled.items[x].id) == pulled.article(
            shelf,
            pulled.last_with(shelf, pulled.items[x].id, n as int)->0,
        ) by {
            lemma_not_taken_over(pulled, shelf, p, x);
        }
    }
}

/// With Miniflux, a second run over the same items imports nothing and stores
/// nothing, as long as no two of the items stand for one article, items with one id
/// are of one feed, and the store keeps what it is given. (An item without an
/// address that is found by its id is lost to the next run where another item
/// takes its article over.)
pub proof fn law_second_run_of_miniflux(pulled: Pulled, shelf: Shelf) -> (n: nat)
    requires
        pulled.provider == Provider::Miniflux,
        shelf.one_id_each(),
        pulled.kept_by(shelf),
        pulled.apart(shelf),
    ensures
        ({
            let end = pulled.all_onto(shelf);
            let second = pulled.scene(end);
            &&& forall|k: int| 0 <= k < pulled.items.len() ==> !pulled.imports(end, k)
            &&& pulled.all_onto(end).by_url == end.by_url
            &&& pulled.all_onto(end).by_guid == end.by_guid
            &&& second.steps(n).pass.stage is Finished
            &&& second.stores_nothing(n)
        }),
{
    let end = pulled.all_onto(shelf);
    assert forall|k: int| 0 <= k < pulled.items.len() implies !pulled.imports(end, k) by {
        lemma_second_run(pulled, shelf, k as nat);
        lemma_known_again(pulled, shelf, k as nat);
    }
    lemma_second_run(pulled, shelf, pulled.items.len());
    law_items_taken_in(pulled, end)
}

/// With Miniflux, an item that the first run imports and the store keeps, or that
/// it finds by address or by guid, is not imported in the second run, whatever the
/// other items are.
pub proof fn law_item_imported_once_of_miniflux(pulled: Pulled, shelf: Shelf, k: int)
    requires
        pulled.provider == Provider::Miniflux,
        0 <= k < pulled.items.len(),
        ({
            let first = pulled.onto(shelf, k as nat);
            let item = pulled.items[k];
            ||| pulled.imports(shelf, k) && pulled.keeps(shelf, k)
            ||| first.first_known(item.urls(), 0) is Some
            ||| pulled.feed(k) is Some && first.by_guid.contains_key(
                (pulled.feed(k)->0, item.id),
            )
        }),
    ensures
        !pulled.imports(pulled.all_onto(shelf), k),
{
    let len = pulled.items.len();
    let end = pulled.all_onto(shelf);
    let first = pulled.onto(shelf, k as nat);
    let now = pulled.onto(end, k as nat);
    let urls = pulled.items[k].urls();
    lemma_grows(pulled, shelf, k as nat, len);
    lemma_grows(pulled, end, 0, k as nat);
    assert(pulled.onto(end, 0) == end);
    if first.first_known(urls, 0) is Some {
        let at = lemma_first_known(first, urls, 0);
        lemma_some_known(now, urls, at);
    } else if pulled.imports(shelf, k) {
        lemma_import_adds(pulled, shelf, k);
        lemma_imported(pulled, shelf, k, len);
        assert(now.by_guid.contains_key((pulled.feed(k)->0, pulled.items[k].id)));
    } else {
        assert(now.by_guid.contains_key((pulled.feed(k)->0, pulled.items[k].id)));
    }
}

/// With FreshRSS, a second run over the same items adds no article, whatever the
/// items and the store are.
pub proof fn law_second_run_adds_nothing_of_freshrss(pulled: Pulled, shelf: Shelf, n: nat)
    requires
        pulled.provider == Provider::FreshRss,
        n <= pulled.items.len(),
    ensures
        ({
            let end = pulled.all_onto(shelf);
            &&& forall|k: int| 0 <= k < n ==> !pulled.adds(end, k)
            &&& pulled.onto(end, n).by_url == end.by_url
            &&& pulled.onto(end, n).by_guid == end.by_guid
        }),
    decreases n,
{
    let len = pulled.items.len();
    let end = pulled.all_onto(shelf);
    if n > 0 {
        let k = n - 1;
        law_second_run_adds_nothing_of_freshrss(pulled, shelf, k as nat);
        let item = pulled.items[k];
        let key = (pulled.feed(k)->0, item.id);
        let first = pulled.onto(shelf, k as nat);
        let now = pulled.onto(end, k as nat);
        lemma_grows(pulled, shelf, 0, k as nat);
        lemma_grows(pulled, shelf, k as nat, len);
        lemma_grows(pulled, end, 0, k as nat);
        assert(pulled.onto(shelf, 0) == shelf);
        assert(pulled.onto(end, 0) == end);
        if pulled.adds(end, k) {
            // It was to be imported in the first run as well, and was added then.
            if first.first_known(item.urls(), 0) is Some {
                let at = lemma_first_known(first, item.urls(), 0);
                lemma_some_known(now, item.urls(), at);
            }
            if !first.by_guid.contains_key(key) {
                assert(pulled.adds(shelf, k));
                lemma_imported(pulled, shelf, k, len);
            }
            assert(now.by_guid.contains_key(key));
        }
        assert(pulled.onto(end, n) == now.with_item(pulled.provider, item, pulled.feeds));
    }
}

/// With FreshRSS, a second run over the same items imports nothing and stores
/// nothing, as long as the items have addresses, the store keeps what it is given,
/// and those that the first run imports are new to it.
pub proof fn law_second_run_of_freshrss(pulled: Pulled, shelf: Shelf) -> (n: nat)
    requires
        pulled.provider == Provider::FreshRss,
        pulled.addressed(),
        forall|k: int|
            0 <= k < pulled.items.len() && pulled.imports(shelf, k) ==> #[trigger] pulled.adds(
                shelf,
                k,
            ),
    ensures
        ({
            let end = pulled.all_onto(shelf);
            let second = pulled.scene(end);
            &&& forall|k: int| 0 <= k < pulled.items.len() ==> !pulled.imports(end, k)
            &&& second.steps(n).pass.stage is Finished
            &&& second.stores_nothing(n)
        }),
{
    let end = pulled.all_onto(shelf);
    let len = pulled.items.len();
    assert forall|k: int| 0 <= k < len implies !pulled.imports(end, k) by {
        if pulled.feed(k) is Some {
            let item = pulled.items[k];
            let first = pulled.onto(shelf, k as nat);
            let now = pulled.onto(end, k as nat);
            lemma_grows(pulled, shelf, k as nat, len);
            lemma_grows(pulled, end, 0, k as nat);
            if first.first_known(item.urls(), 0) is Some {
                let at = lemma_first_known(first, item.urls(), 0);
                lemma_some_known(now, item.urls(), at);
            } else {
                assert(pulled.adds(shelf, k));
                lemma_imported(pulled, shelf, k, len);
                lemma_some_known(now, item.urls(), 0);
            }
        }
    }
    law_items_taken_in(pulled, end)
}

}
