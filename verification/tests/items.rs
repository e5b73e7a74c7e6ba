//! Articles as the server reports them.
use papr_sync::data::{Href, Item, ItemContent};
use papr_sync::item::{item_article, item_url, item_urls, render_job, Instant, Rendering};

fn link(href: &str) -> Href {
    Href { href: href.to_string() }
}

#[test]
fn item_url_prefers_canonical_then_alternate() {
    let item = Item {
        id: "i1".into(),
        title: None,
        author: None,
        published: None,
        summary: None,
        content: None,
        origin: None,
        categories: vec![],
        canonical: vec![link("https://a.example/x")],
        alternate: vec![link("https://alt.example/x")],
    };
    assert_eq!(item_url(&item).as_deref(), Some("https://a.example/x"));

    let no_canonical = Item {
        canonical: vec![],
        ..item
    };
    assert_eq!(
        item_url(&no_canonical).as_deref(),
        Some("https://alt.example/x")
    );

    let both_blank = Item {
        canonical: vec![],
        alternate: vec![],
        ..no_canonical
    };
    assert_eq!(item_url(&both_blank), None);
}

#[test]
fn item_article_maps_miniflux_fields() {
    let item = Item {
        id: "tag:google.com,2005:reader/item/0000000000000001".into(),
        title: Some("  Hello  ".into()),
        author: Some("Ada".into()),
        published: Some(1_700_000_000),
        summary: None,
        content: Some(ItemContent {
            content: "<p>Body</p>".into(),
        }),
        origin: None,
        categories: vec![],
        canonical: vec![link("https://a.example/x")],
        alternate: vec![],
    };
    let job = render_job(&item);
    assert_eq!(job.html.as_deref(), Some("<p>Body</p>"));
    let rendering = Rendering {
        body_text: "Body".to_string(),
        summary_text: String::new(),
        published: job.published,
    };
    let a = item_article(&item, item_url(&item), rendering);
    assert_eq!(
        a.guid,
        "tag:google.com,2005:reader/item/0000000000000001"
    );
    assert_eq!(a.title, "Hello");
    assert_eq!(a.author.as_deref(), Some("Ada"));
    assert_eq!(a.content_html.as_deref(), Some("<p>Body</p>"));
    assert!(a.body_text.contains("Body"));
    assert_eq!(a.url.as_deref(), Some("https://a.example/x"));
}

fn bare(id: &str) -> Item {
    Item {
        id: id.to_string(),
        title: None,
        author: None,
        published: None,
        summary: None,
        content: None,
        origin: None,
        categories: vec![],
        canonical: vec![],
        alternate: vec![],
    }
}

fn html(content: &str) -> Option<ItemContent> {
    Some(ItemContent { content: content.to_string() })
}

#[test]
fn item_urls_are_distinct_trimmed_and_in_order() {
    let item = Item {
        canonical: vec![link("  "), link(" https://b.example "), link("https://c.example")],
        alternate: vec![
            link("https://b.example"),
            link(""),
            link("https://a.example"),
            link("https://c.example\n"),
        ],
        ..bare("i")
    };
    assert_eq!(
        item_urls(&item),
        vec!["https://b.example", "https://c.example", "https://a.example"]
    );
    assert_eq!(item_url(&item).as_deref(), Some("https://b.example"));
    assert!(item_urls(&bare("i")).is_empty());
}

fn plain(body: &str, summary: &str, published: Option<Instant>) -> Rendering {
    Rendering {
        body_text: body.to_string(),
        summary_text: summary.to_string(),
        published,
    }
}

#[test]
fn article_without_anything_gets_defaults() {
    let item = Item { title: Some("  ".into()), author: Some(" ".into()), ..bare("g") };
    let a = item_article(&item, None, plain("ignored", "ignored", Some(Instant { secs: 0, nanos: 0 })));
    assert_eq!(a.guid, "g");
    assert_eq!(a.url, None);
    assert_eq!(a.title, "Untitled");
    assert_eq!(a.author, None);
    assert_eq!(a.summary, None);
    assert_eq!(a.content_html, None);
    assert_eq!(a.body_text, "");
    assert_eq!(a.image_url, None);
    assert_eq!(a.published_at, None);
    assert!(a.enclosures.is_empty());
}

#[test]
fn article_takes_its_html_from_content_or_summary() {
    let both = Item { content: html(" <b>c</b> "), summary: html("<i>s</i>"), ..bare("g") };
    let job = render_job(&both);
    assert_eq!(job.html.as_deref(), Some("<b>c</b>"));
    assert_eq!(job.summary.as_deref(), Some("<i>s</i>"));
    let a = item_article(&both, None, plain("c", "s", None));
    assert_eq!(a.content_html.as_deref(), Some("<b>c</b>"));
    assert_eq!(a.body_text, "c");
    assert_eq!(a.summary.as_deref(), Some("s"));

    let only_summary = Item { summary: html("<i>s</i>"), ..bare("g") };
    let a = item_article(&only_summary, None, plain("s", "", None));
    assert_eq!(a.content_html.as_deref(), Some("<i>s</i>"));
    assert_eq!(a.summary, None);

    // Blank content is not replaced by the summary.
    let blank = Item { content: html("  "), summary: html("<i>s</i>"), ..bare("g") };
    assert_eq!(render_job(&blank).html, None);
}

#[test]
fn publication_time_is_written_in_rfc3339() {
    let at = |secs: i64| {
        let item = Item { published: Some(secs), ..bare("g") };
        let published = render_job(&item).published;
        item_article(&item, None, plain("", "", published)).published_at
    };
    assert_eq!(at(1_700_000_000).as_deref(), Some("2023-11-14T22:13:20+00:00"));
    assert_eq!(at(0).as_deref(), Some("1970-01-01T00:00:00+00:00"));
    assert_eq!(at(-1).as_deref(), Some("1969-12-31T23:59:59+00:00"));
    assert!(at(-8_334_601_228_800).is_some());
    assert_eq!(at(-8_334_601_228_801), None);
    assert!(at(8_210_266_876_799).is_some());
    assert_eq!(at(8_210_266_876_800), None);
    assert_eq!(at(i64::MAX), None);
    assert_eq!(at(i64::MIN), None);
}

#[test]
fn clamped_publication_time_is_the_one_written() {
    let item = Item { published: Some(0), ..bare("g") };
    let written = |secs: i64, nanos: u32| {
        item_article(&item, None, plain("", "", Some(Instant { secs, nanos }))).published_at
    };
    assert_eq!(
        written(1_700_000_000, 500_000_000).as_deref(),
        Some("2023-11-14T22:13:20.500+00:00")
    );
    assert_eq!(
        written(1_700_000_039, 1_500_000_000).as_deref(),
        Some("2023-11-14T22:13:60.500+00:00")
    );
    assert_eq!(written(1_700_000_000, 1_500_000_000), None);
    assert_eq!(written(1_700_000_039, 2_000_000_000), None);
    assert_eq!(item_article(&item, None, plain("", "", None)).published_at, None);
}
