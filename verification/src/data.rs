//! The records that travel between a Google Reader compatible server, the
//! local store and the synchronisation logic, each with its mathematical view.
use vstd::prelude::*;

verus! {

/// A category ("label") that a subscription belongs to.
#[derive(Debug)]
pub struct SubCat {
    pub id: String,
    pub label: Option<String>,
}

pub struct SubCatView {
    pub id: Seq<char>,
    pub label: Option<Seq<char>>,
}

impl DeepView for SubCat {
    type V = SubCatView;

    open spec fn deep_view(&self) -> SubCatView {
        SubCatView { id: self.id@, label: self.label.deep_view() }
    }
}

/// A subscription as the server lists it.
#[derive(Debug)]
pub struct Sub {
    pub id: String,
    pub url: Option<String>,
    pub title: Option<String>,
    pub categories: Vec<SubCat>,
}

pub struct SubView {
    pub id: Seq<char>,
    pub url: Option<Seq<char>>,
    pub title: Option<Seq<char>>,
    pub categories: Seq<SubCatView>,
}

impl DeepView for Sub {
    type V = SubView;

    open spec fn deep_view(&self) -> SubView {
        SubView {
            id: self.id@,
            url: self.url.deep_view(),
            title: self.title.deep_view(),
            categories: self.categories.deep_view(),
        }
    }
}

/// HTML that an item carries as its content or its summary.
#[derive(Debug)]
pub struct ItemContent {
    pub content: String,
}

impl DeepView for ItemContent {
    type V = Seq<char>;

    open spec fn deep_view(&self) -> Seq<char> {
        self.content@
    }
}

/// The stream that an item comes from.
#[derive(Debug)]
pub struct ItemOrigin {
    pub stream_id: String,
}

impl DeepView for ItemOrigin {
    type V = Seq<char>;

    open spec fn deep_view(&self) -> Seq<char> {
        self.stream_id@
    }
}

/// A link of an item.
#[derive(Debug)]
pub struct Href {
    pub href: String,
}

impl DeepView for Href {
    type V = Seq<char>;

    open spec fn deep_view(&self) -> Seq<char> {
        self.href@
    }
}

/// One article as the server reports it.
#[derive(Debug)]
pub struct Item {
    pub id: String,
    pub title: Option<String>,
    pub author: Option<String>,
    /// Publication time in seconds since the Unix epoch.
    pub published: Option<i64>,
    pub summary: Option<ItemContent>,
    pub content: Option<ItemContent>,
    pub origin: Option<ItemOrigin>,
    pub categories: Vec<String>,
    pub canonical: Vec<Href>,
    pub alternate: Vec<Href>,
}

pub struct ItemView {
    pub id: Seq<char>,
    pub title: Option<Seq<char>>,
    pub author: Option<Seq<char>>,
    pub published: Option<i64>,
    pub summary: Option<Seq<char>>,
    pub content: Option<Seq<char>>,
    pub origin: Option<Seq<char>>,
    pub categories: Seq<Seq<char>>,
    pub canonical: Seq<Seq<char>>,
    pub alternate: Seq<Seq<char>>,
}

impl DeepView for Item {
    type V = ItemView;

    open spec fn deep_view(&self) -> ItemView {
        ItemView {
            id: self.id@,
            title: self.title.deep_view(),
            author: self.author.deep_view(),
            published: self.published,
            summary: self.summary.deep_view(),
            content: self.content.deep_view(),
            origin: self.origin.deep_view(),
            categories: self.categories.deep_view(),
            canonical: self.canonical.deep_view(),
            alternate: self.alternate.deep_view(),
        }
    }
}

/// One page of item ids.
#[derive(Debug)]
pub struct IdList {
    pub item_refs: Vec<String>,
    /// The offset of the next page; zero or absent at the end of the stream.
    pub continuation: Option<usize>,
}

pub struct IdListView {
    pub item_refs: Seq<Seq<char>>,
    pub continuation: Option<usize>,
}

impl DeepView for IdList {
    type V = IdListView;

    open spec fn deep_view(&self) -> IdListView {
        IdListView { item_refs: self.item_refs.deep_view(), continuation: self.continuation }
    }
}

/// One page of full items.
#[derive(Debug)]
pub struct Contents {
    pub items: Vec<Item>,
    /// The token of the next page; empty or absent at the end of the stream.
    pub continuation: Option<String>,
}

pub struct ContentsView {
    pub items: Seq<ItemView>,
    pub continuation: Option<Seq<char>>,
}

impl DeepView for Contents {
    type V = ContentsView;

    open spec fn deep_view(&self) -> ContentsView {
        ContentsView {
            items: self.items.deep_view(),
            continuation: self.continuation.deep_view(),
        }
    }
}

/// A category of Miniflux's native interface.
#[derive(Debug)]
pub struct MinifluxCategory {
    pub id: i64,
    pub title: String,
}

pub struct CategoryView {
    pub id: i64,
    pub title: Seq<char>,
}

impl DeepView for MinifluxCategory {
    type V = CategoryView;

    open spec fn deep_view(&self) -> CategoryView {
        CategoryView { id: self.id, title: self.title@ }
    }
}

/// A local read or starred change that waits to be sent to the server.
#[derive(Debug)]
pub struct SyncEntry {
    pub article_id: i64,
    pub remote_id: String,
    pub field: String,
    pub value: bool,
}

pub struct SyncEntryView {
    pub article_id: i64,
    pub remote_id: Seq<char>,
    pub field: Seq<char>,
    pub value: bool,
}

impl DeepView for SyncEntry {
    type V = SyncEntryView;

    open spec fn deep_view(&self) -> SyncEntryView {
        SyncEntryView {
            article_id: self.article_id,
            remote_id: self.remote_id@,
            field: self.field@,
            value: self.value,
        }
    }
}

impl Clone for SyncEntry {
    fn clone(&self) -> (r: Self)
        ensures
            r == *self,
    {
        SyncEntry {
            article_id: self.article_id,
            remote_id: self.remote_id.clone(),
            field: self.field.clone(),
            value: self.value,
        }
    }
}

/// A local feed with the folder it is filed in.
#[derive(Debug)]
pub struct FeedTarget {
    pub url: String,
    pub folder: Option<String>,
}

pub struct FeedTargetView {
    pub url: Seq<char>,
    pub folder: Option<Seq<char>>,
}

impl DeepView for FeedTarget {
    type V = FeedTargetView;

    open spec fn deep_view(&self) -> FeedTargetView {
        FeedTargetView { url: self.url@, folder: self.folder.deep_view() }
    }
}

/// An article ready to be stored.
#[derive(Debug)]
pub struct NewArticle {
    pub guid: String,
    pub url: Option<String>,
    pub title: String,
    pub author: Option<String>,
    pub summary: Option<String>,
    pub content_html: Option<String>,
    pub body_text: String,
    pub image_url: Option<String>,
    pub published_at: Option<String>,
    pub enclosures: Vec<String>,
}

pub struct NewArticleView {
    pub guid: Seq<char>,
    pub url: Option<Seq<char>>,
    pub title: Seq<char>,
    pub author: Option<Seq<char>>,
    pub summary: Option<Seq<char>>,
    pub content_html: Option<Seq<char>>,
    pub body_text: Seq<char>,
    pub image_url: Option<Seq<char>>,
    pub published_at: Option<Seq<char>>,
    pub enclosures: Seq<Seq<char>>,
}

impl DeepView for NewArticle {
    type V = NewArticleView;

    open spec fn deep_view(&self) -> NewArticleView {
        NewArticleView {
            guid: self.guid@,
            url: self.url.deep_view(),
            title: self.title@,
            author: self.author.deep_view(),
            summary: self.summary.deep_view(),
            content_html: self.content_html.deep_view(),
            body_text: self.body_text@,
            image_url: self.image_url.deep_view(),
            published_at: self.published_at.deep_view(),
            enclosures: self.enclosures.deep_view(),
        }
    }
}

/// Copies a list of texts.
pub fn copy_texts(v: &Vec<String>) -> (r: Vec<String>)
    ensures
        r@ == v@,
{
    let mut r: Vec<String> = Vec::new();
    for i in 0..v.len()
        invariant
            r@ == v@.take(i as int),
    {
        r.push(v[i].clone());
        assert(r@ =~= v@.take(i + 1));
    }
    assert(v@.take(v@.len() as int) =~= v@);
    r
}

}
