//! Articles as the server reports them: their links and how one becomes a local
//! article.
use vstd::prelude::*;

use chrono::{TimeZone, Utc};

use crate::data::{Href, Item, ItemView, NewArticle, NewArticleView};
use crate::text;

verus! {

/// The links that are not blank, each once, in order of first occurrence and
/// without surrounding white space.
pub open spec fn distinct_links(links: Seq<Seq<char>>) -> Seq<Seq<char>>
    decreases links.len(),
{
    if links.len() == 0 {
        Seq::empty()
    } else {
        let before = distinct_links(links.drop_last());
        let link = text::trimmed(links.last());
        if link.len() == 0 || before.contains(link) {
            before
        } else {
            before.push(link)
        }
    }
}

impl ItemView {
    /// The addresses under which the item may be known: its canonical links,
    /// then its alternate ones.
    pub open spec fn urls(self) -> Seq<Seq<char>> {
        distinct_links(self.canonical + self.alternate)
    }

    /// The address that the item is matched on first.
    pub open spec fn url(self) -> Option<Seq<char>> {
        if self.urls().len() > 0 {
            Some(self.urls()[0])
        } else {
            None
        }
    }
}

fn holds(urls: &Vec<String>, url: &str) -> (r: bool)
    ensures
        r == urls.deep_view().contains(url@),
{
    for i in 0..urls.len()
        invariant
            forall|j: int| 0 <= j < i ==> #[trigger] urls.deep_view()[j] != url@,
    {
        assert(urls.deep_view()[i as int] == urls@[i as int]@);
        if text::same(urls[i].as_str(), url) {
            return true;
        }
    }
    false
}

fn add_links(urls: &mut Vec<String>, Ghost(before): Ghost<Seq<Seq<char>>>, links: &Vec<Href>)
    requires
        old(urls).deep_view() == distinct_links(before),
    ensures
        final(urls).deep_view() == distinct_links(before + links.deep_view()),
{
    let ghost all = links.deep_view();
    assert(before + all.take(0) =~= before);
    for i in 0..links.len()
        invariant
            all == links.deep_view(),
            urls.deep_view() == distinct_links(before + all.take(i as int)),
    {
        let link = text::trim(links[i].href.as_str());
        proof {
            let longer = before + all.take(i + 1);
            assert(longer.drop_last() =~= before + all.take(i as int));
            assert(longer.last() == links@[i as int].href@);
        }
        if !link.is_empty() && !holds(urls, link) {
            let ghost had = urls.deep_view();
            urls.push(link.to_owned());
            assert(urls.deep_view() =~= had.push(link@));
        }
    }
    assert(all.take(all.len() as int) =~= all);
}

/// Every distinct candidate address of an item, in match priority order: all
/// canonical links, then all alternate ones. A feed document often carries the
/// entry's link only as an alternate while the server re-emits it as canonical;
/// with the whole set an existing article is found by any of its links.
pub fn item_urls(item: &Item) -> (r: Vec<String>)
    ensures
        r.deep_view() == item.deep_view().urls(),
{
    let mut urls: Vec<String> = Vec::new();
    assert(urls.deep_view() =~= distinct_links(Seq::empty()));
    add_links(&mut urls, Ghost(Seq::empty()), &item.canonical);
    assert(Seq::<Seq<char>>::empty() + item.canonical.deep_view()
        =~= item.canonical.deep_view());
    add_links(&mut urls, Ghost(item.canonical.deep_view()), &item.alternate);
    urls
}

/// The address to match an item on: the first of its canonical links, or else
/// of its alternate ones.
pub fn item_url(item: &Item) -> (r: Option<String>)
    ensures
        r.deep_view() == item.deep_view().url(),
{
    let urls = item_urls(item);
    if urls.len() > 0 {
        assert(urls.deep_view()[0] == urls@[0]@);
        Some(urls[0].clone())
    } else {
        None
    }
}

/// A point in time: seconds since the Unix epoch and nanoseconds.
#[derive(Clone, Copy, Debug, PartialEq, Eq, Structural)]
pub struct Instant {
    pub secs: i64,
    pub nanos: u32,
}

impl Instant {
    /// The point lies on the calendar from the year -262143 to the year 262142;
    /// nanoseconds beyond a second only in a minute's last second.
    pub open spec fn on_calendar(self) -> bool {
        &&& -8334601228800 <= self.secs <= 8210266876799
        &&& self.nanos < 1000000000 || (self.nanos < 2000000000 && self.secs as int % 60 == 59)
    }
}

/// The RFC 3339 text, in universal time, of the point in time that lies `secs`
/// seconds and `nanos` nanoseconds after the Unix epoch.
pub uninterp spec fn rfc3339_text(secs: i64, nanos: u32) -> Seq<char>;

/// Calls `chrono::TimeZone::timestamp_opt` on `chrono::Utc` and, on the single
/// `DateTime` it gives, `to_rfc3339`. Believed of it: there is a `DateTime`
/// exactly for a point on chrono's calendar, and its text is a function of the
/// point.
#[verifier::external_body]
fn utc_rfc3339(secs: i64, nanos: u32) -> (r: Option<String>)
    ensures
        r is Some <==> (Instant { secs, nanos }).on_calendar(),
        r is Some ==> r->0@ == rfc3339_text(secs, nanos),
{
    Utc.timestamp_opt(secs, nanos).single().map(|at| at.to_rfc3339())
}

/// What has to be worked out about an item before it can be stored: the plain
/// text of its HTML and of its summary, and its publication time held within
/// bounds.
#[derive(Debug)]
pub struct RenderJob {
    pub html: Option<String>,
    pub summary: Option<String>,
    pub published: Option<Instant>,
}

pub struct RenderJobView {
    pub html: Option<Seq<char>>,
    pub summary: Option<Seq<char>>,
    pub published: Option<Instant>,
}

impl DeepView for RenderJob {
    type V = RenderJobView;

    open spec fn deep_view(&self) -> RenderJobView {
        RenderJobView {
            html: self.html.deep_view(),
            summary: self.summary.deep_view(),
            published: self.published,
        }
    }
}

/// The answer to a [`RenderJob`]. A part that the job did not ask for is
/// ignored.
#[derive(Debug)]
pub struct Rendering {
    pub body_text: String,
    pub summary_text: String,
    pub published: Option<Instant>,
}

pub struct RenderingView {
    pub body_text: Seq<char>,
    pub summary_text: Seq<char>,
    pub published: Option<Instant>,
}

impl DeepView for Rendering {
    type V = RenderingView;

    open spec fn deep_view(&self) -> RenderingView {
        RenderingView {
            body_text: self.body_text@,
            summary_text: self.summary_text@,
            published: self.published,
        }
    }
}

/// The RFC 3339 text of a point on the calendar.
pub open spec fn written_time(at: Instant) -> Option<Seq<char>> {
    if at.on_calendar() {
        Some(rfc3339_text(at.secs, at.nanos))
    } else {
        None
    }
}

impl ItemView {
    /// The item's HTML: its content, or else its summary, unless blank.
    pub open spec fn html(self) -> Option<Seq<char>> {
        let source = if self.content is Some {
            self.content
        } else {
            self.summary
        };
        if source is Some && text::trimmed(source->0).len() > 0 {
            Some(text::trimmed(source->0))
        } else {
            None
        }
    }

    /// When the item was published, if that is a point on the calendar.
    pub open spec fn published_at(self) -> Option<Instant> {
        match self.published {
            Some(secs) => {
                let at = Instant { secs, nanos: 0 };
                if at.on_calendar() {
                    Some(at)
                } else {
                    None
                }
            },
            None => None,
        }
    }

    /// What has to be worked out before the item can be stored.
    pub open spec fn job(self) -> RenderJobView {
        RenderJobView { html: self.html(), summary: self.summary, published: self.published_at() }
    }

    /// The item's title, or a stand-in where it has none.
    pub open spec fn title_text(self) -> Seq<char> {
        if self.title is Some && text::trimmed(self.title->0).len() > 0 {
            text::trimmed(self.title->0)
        } else {
            "Untitled"@
        }
    }

    /// The local article for the item.
    pub open spec fn article(
        self,
        url: Option<Seq<char>>,
        rendering: RenderingView,
    ) -> NewArticleView {
        NewArticleView {
            guid: self.id,
            url,
            title: self.title_text(),
            author: if self.author is Some && text::trimmed(self.author->0).len() > 0 {
                self.author
            } else {
                None
            },
            summary: if self.summary is Some && rendering.summary_text.len() > 0 {
                Some(rendering.summary_text)
            } else {
                None
            },
            content_html: self.html(),
            body_text: if self.html() is Some {
                rendering.body_text
            } else {
                Seq::empty()
            },
            image_url: None,
            published_at: if self.published_at() is Some && rendering.published is Some {
                written_time(rendering.published->0)
            } else {
                None
            },
            enclosures: Seq::empty(),
        }
    }
}

fn item_html(item: &Item) -> (r: Option<String>)
    ensures
        r.deep_view() == item.deep_view().html(),
{
    let source = match &item.content {
        Some(c) => Some(c.content.as_str()),
        None => match &item.summary {
            Some(s) => Some(s.content.as_str()),
            None => None,
        },
    };
    match source {
        Some(s) => {
            let t = text::trim(s);
            if t.is_empty() {
                None
            } else {
                Some(t.to_owned())
            }
        },
        None => None,
    }
}

fn item_published(item: &Item) -> (r: Option<Instant>)
    ensures
        r == item.deep_view().published_at(),
{
    match item.published {
        Some(secs) => {
            if utc_rfc3339(secs, 0).is_some() {
                Some(Instant { secs, nanos: 0 })
            } else {
                None
            }
        },
        None => None,
    }
}

/// What has to be worked out before the item can be stored.
pub fn render_job(item: &Item) -> (r: RenderJob)
    ensures
        r.deep_view() == item.deep_view().job(),
{
    RenderJob {
        html: item_html(item),
        summary: match &item.summary {
            Some(s) => Some(s.content.clone()),
            None => None,
        },
        published: item_published(item),
    }
}

/// Builds a local article from an item of the server, so that one the local
/// store has never seen can be imported with its full content.
pub fn item_article(item: &Item, url: Option<String>, rendering: Rendering) -> (r: NewArticle)
    ensures
        r.deep_view() == item.deep_view().article(url.deep_view(), rendering.deep_view()),
{
    let html = item_html(item);
    let body_text = if html.is_some() {
        rendering.body_text
    } else {
        String::new()
    };
    let summary = if item.summary.is_some() && !rendering.summary_text.as_str().is_empty() {
        Some(rendering.summary_text)
    } else {
        None
    };
    let published_at = match (item_published(item), rendering.published) {
        (Some(_), Some(at)) => utc_rfc3339(at.secs, at.nanos),
        _ => None,
    };
    let title = match &item.title {
        Some(t) => {
            let t = text::trim(t.as_str());
            if t.is_empty() {
                "Untitled".to_owned()
            } else {
                t.to_owned()
            }
        },
        None => "Untitled".to_owned(),
    };
    let author = match &item.author {
        Some(a) => {
            if text::trim(a.as_str()).is_empty() {
                None
            } else {
                Some(a.clone())
            }
        },
        None => None,
    };
    let enclosures: Vec<String> = Vec::new();
    assert(enclosures.deep_view() =~= Seq::<Seq<char>>::empty());
    NewArticle {
        guid: item.id.clone(),
        url,
        title,
        author,
        summary,
        content_html: html,
        body_text,
        image_url: None,
        published_at,
        enclosures,
    }
}

proof fn lemma_distinct_links(links: Seq<Seq<char>>)
    ensures
        distinct_links(links).no_duplicates(),
        forall|i: int|
            #![trigger distinct_links(links)[i]]
            0 <= i < distinct_links(links).len() ==> distinct_links(links)[i].len() > 0
                && text::trimmed(distinct_links(links)[i]) == distinct_links(links)[i] && exists|
                k: int,
            | 0 <= k < links.len() && text::trimmed(#[trigger] links[k]) == distinct_links(
                links,
            )[i],
        forall|k: int|
            #![trigger links[k]]
            0 <= k < links.len() && text::trimmed(links[k]).len() > 0 ==> distinct_links(
                links,
            ).contains(text::trimmed(links[k])),
    decreases links.len(),
{
    if links.len() > 0 {
        let shorter = links.drop_last();
        let before = distinct_links(shorter);
        let all = distinct_links(links);
        let link = text::trimmed(links.last());
        lemma_distinct_links(shorter);
        text::law_trimmed_idempotent(links.last());
        assert forall|i: int| #![trigger all[i]] 0 <= i < all.len() implies all[i].len() > 0
            && text::trimmed(all[i]) == all[i] && exists|k: int|
            0 <= k < links.len() && text::trimmed(#[trigger] links[k]) == all[i] by {
            if i < before.len() {
                assert(all[i] == before[i]);
                let k = choose|k: int|
                    0 <= k < shorter.len() && text::trimmed(#[trigger] shorter[k]) == before[i];
                assert(links[k] == shorter[k]);
            } else {
                assert(links[links.len() - 1] == links.last());
            }
        }
        assert forall|k: int|
            #![trigger links[k]]
            0 <= k < links.len() && text::trimmed(links[k]).len() > 0 implies all.contains(
            text::trimmed(links[k]),
        ) by {
            if k < shorter.len() {
                assert(shorter[k] == links[k]);
                let i = choose|i: int|
                    0 <= i < before.len() && before[i] == text::trimmed(shorter[k]);
                assert(all[i] == before[i]);
            } else if before.contains(link) {
                assert(all == before);
            } else {
                assert(all[before.len() as int] == link);
            }
        }
    }
}

/// Links that come first keep their place when others follow.
proof fn lemma_links_in_order(a: Seq<Seq<char>>, b: Seq<Seq<char>>)
    ensures
        distinct_links(a).is_prefix_of(distinct_links(a + b)),
    decreases b.len(),
{
    if b.len() == 0 {
        assert(a + b =~= a);
    } else {
        lemma_links_in_order(a, b.drop_last());
        assert((a + b).drop_last() =~= a + b.drop_last());
    }
}

/// A link that gives an earlier address than the link at `k`, before it.
proof fn lemma_links_by_first(links: Seq<Seq<char>>, i: int, j: int, k: int) -> (m: int)
    requires
        0 <= i < j < distinct_links(links).len(),
        0 <= k < links.len(),
        text::trimmed(links[k]) == distinct_links(links)[j],
    ensures
        0 <= m < k,
        text::trimmed(links[m]) == distinct_links(links)[i],
    decreases links.len(),
{
    let shorter = links.drop_last();
    let before = distinct_links(shorter);
    lemma_distinct_links(shorter);
    if j < before.len() && k < shorter.len() {
        lemma_links_by_first(shorter, i, j, k)
    } else {
        assert(before[i] == distinct_links(links)[i]);
        if k < shorter.len() {
            // A link that gives the newest address cannot have come before.
            assert(shorter[k] == links[k]);
            assert(distinct_links(links)[j] == text::trimmed(links.last()));
            assert(before.contains(text::trimmed(shorter[k])));
        }
        let m = choose|m: int|
            0 <= m < shorter.len() && text::trimmed(#[trigger] shorter[m]) == before[i];
        assert(links[m] == shorter[m]);
        m
    }
}

/// The addresses of an item are exactly the trimmed links that are not blank,
/// each once, and those of its canonical links come before all others.
pub proof fn law_item_urls(item: ItemView)
    ensures
        item.urls().no_duplicates(),
        forall|url: Seq<char>|
            item.urls().contains(url) <==> url.len() > 0 && exists|k: int|
                0 <= k < (item.canonical + item.alternate).len() && text::trimmed(
                    #[trigger] (item.canonical + item.alternate)[k],
                ) == url,
        distinct_links(item.canonical).is_prefix_of(item.urls()),
{
    let links = item.canonical + item.alternate;
    lemma_distinct_links(links);
    lemma_links_in_order(item.canonical, item.alternate);
    assert forall|url: Seq<char>|
        item.urls().contains(url) <==> url.len() > 0 && exists|k: int|
            0 <= k < links.len() && text::trimmed(#[trigger] links[k]) == url by {
        if item.urls().contains(url) {
            let i = choose|i: int| 0 <= i < item.urls().len() && item.urls()[i] == url;
            assert(distinct_links(links)[i] == url);
        }
    }
}

/// The addresses of an item come in the order of first occurrence: before any link
/// that gives a later address stands one that gives an earlier address.
pub proof fn law_item_urls_in_order(item: ItemView, i: int, j: int, k: int)
    requires
        0 <= i < j < item.urls().len(),
        0 <= k < (item.canonical + item.alternate).len(),
        text::trimmed((item.canonical + item.alternate)[k]) == item.urls()[j],
    ensures
        exists|m: int|
            0 <= m < k && text::trimmed(#[trigger] (item.canonical + item.alternate)[m])
                == item.urls()[i],
{
    let m = lemma_links_by_first(item.canonical + item.alternate, i, j, k);
    assert(text::trimmed((item.canonical + item.alternate)[m]) == item.urls()[i]);
}

/// The address that an item is matched on first is its first link that is not
/// blank, where the canonical links come before the alternate ones.
pub proof fn law_item_url_is_first(item: ItemView, k: int)
    requires
        0 <= k < (item.canonical + item.alternate).len(),
        text::trimmed((item.canonical + item.alternate)[k]).len() > 0,
        forall|j: int|
            0 <= j < k ==> text::trimmed(
                #[trigger] (item.canonical + item.alternate)[j],
            ).len() == 0,
    ensures
        item.url() == Some(text::trimmed((item.canonical + item.alternate)[k])),
{
    let links = item.canonical + item.alternate;
    let upto = links.take(k);
    assert forall|i: int| 0 <= i < k implies text::trimmed(#[trigger] upto[i]).len() == 0 by {
        assert(upto[i] == links[i]);
    }
    lemma_blank_links(upto);
    assert(links.take(k + 1).drop_last() =~= upto);
    assert(links.take(k + 1).last() == links[k]);
    assert(distinct_links(links.take(k + 1)) =~= seq![text::trimmed(links[k])]);
    lemma_links_in_order(links.take(k + 1), links.skip(k + 1));
    assert(links.take(k + 1) + links.skip(k + 1) =~= links);
    assert(distinct_links(links)[0] == distinct_links(links.take(k + 1))[0]);
}

proof fn lemma_blank_links(links: Seq<Seq<char>>)
    requires
        forall|i: int| 0 <= i < links.len() ==> text::trimmed(#[trigger] links[i]).len() == 0,
    ensures
        distinct_links(links).len() == 0,
    decreases links.len(),
{
    if links.len() > 0 {
        assert(links[links.len() - 1] == links.last());
        lemma_blank_links(links.drop_last());
    }
}

/// An item without a link that is not blank has no address.
pub proof fn law_item_without_links(item: ItemView)
    requires
        forall|k: int|
            0 <= k < (item.canonical + item.alternate).len() ==> text::trimmed(
                #[trigger] (item.canonical + item.alternate)[k],
            ).len() == 0,
    ensures
        item.url() is None,
{
    lemma_blank_links(item.canonical + item.alternate);
}

/// An article with HTML has the plain text that was rendered for that very HTML;
/// only an article without HTML has an empty text.
pub proof fn law_article_text(item: ItemView, url: Option<Seq<char>>, rendering: RenderingView)
    ensures
        item.article(url, rendering).content_html == item.job().html,
        item.article(url, rendering).content_html is Some ==> item.article(
            url,
            rendering,
        ).body_text == rendering.body_text,
        item.article(url, rendering).content_html is None ==> item.article(
            url,
            rendering,
        ).body_text.len() == 0,
{
}

/// The HTML of an article is the item's content, without surrounding white space,
/// and the item's summary only where it has no content; a blank one is none.
pub proof fn law_article_html(item: ItemView, url: Option<Seq<char>>, rendering: RenderingView)
    ensures
        item.content matches Some(content) ==> item.article(url, rendering).content_html == (
        if text::trimmed(content).len() > 0 {
            Some(text::trimmed(content))
        } else {
            None
        }),
        item.content is None && item.summary is Some ==> item.article(url, rendering).content_html
            == (if text::trimmed(item.summary->0).len() > 0 {
            Some(text::trimmed(item.summary->0))
        } else {
            None
        }),
        item.content is None && item.summary is None ==> item.article(
            url,
            rendering,
        ).content_html is None,
{
}

/// An item that has a text only as its summary becomes an article with the same
/// HTML and the same plain text as one that has it as its content.
pub proof fn law_summary_stands_in(
    short: ItemView,
    full: ItemView,
    url: Option<Seq<char>>,
    rendering: RenderingView,
)
    requires
        short.content is None,
        full.content is Some,
        short.summary == full.content,
    ensures
        short.article(url, rendering).content_html == full.article(url, rendering).content_html,
        short.article(url, rendering).body_text == full.article(url, rendering).body_text,
        short.job().html == full.job().html,
{
}

/// What an article takes over from its item unchanged, and what stands in for a
/// blank title and a blank author.
pub proof fn law_article_fields(item: ItemView, url: Option<Seq<char>>, rendering: RenderingView)
    ensures
        item.article(url, rendering).guid == item.id,
        item.article(url, rendering).url == url,
        item.article(url, rendering).image_url is None,
        item.article(url, rendering).enclosures.len() == 0,
        item.title is Some && text::trimmed(item.title->0).len() > 0 ==> item.article(
            url,
            rendering,
        ).title == text::trimmed(item.title->0),
        (item.title is None || text::trimmed(item.title->0).len() == 0) ==> item.article(
            url,
            rendering,
        ).title == "Untitled"@,
        item.author is Some && text::trimmed(item.author->0).len() > 0 ==> item.article(
            url,
            rendering,
        ).author == item.author,
        (item.author is None || text::trimmed(item.author->0).len() == 0) ==> item.article(
            url,
            rendering,
        ).author is None,
{
}

/// The summary of an article is the plain text of the item's summary, unless that
/// is empty; an item without a summary gives none.
pub proof fn law_article_summary(item: ItemView, url: Option<Seq<char>>, rendering: RenderingView)
    ensures
        item.job().summary == item.summary,
        item.article(url, rendering).summary is Some <==> item.summary is Some
            && rendering.summary_text.len() > 0,
        item.article(url, rendering).summary matches Some(summary) ==> summary
            == rendering.summary_text,
{
}

/// An item's time of publication is asked about, to the second, exactly where it
/// lies on the calendar; the article then has the text of the answer, and
/// otherwise no time.
pub proof fn law_article_time(item: ItemView, url: Option<Seq<char>>, rendering: RenderingView)
    ensures
        item.job().published is Some <==> item.published is Some && -8334601228800
            <= item.published->0 <= 8210266876799,
        item.job().published matches Some(at) ==> at.secs == item.published->0 && at.nanos == 0,
        item.job().published is None || rendering.published is None ==> item.article(
            url,
            rendering,
        ).published_at is None,
        item.job().published is Some && rendering.published is Some ==> item.article(
            url,
            rendering,
        ).published_at == (if rendering.published->0.on_calendar() {
            Some(rfc3339_text(rendering.published->0.secs, rendering.published->0.nanos))
        } else {
            None
        }),
{
}

}
