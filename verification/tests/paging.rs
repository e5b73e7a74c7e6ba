//! Continuations, pages and pulls.
use papr_sync::data::{Contents, Href, IdList, Item};
use papr_sync::greader::Session;
use papr_sync::http::{Body, Method, Request};
use papr_sync::paging::{
    continuation_offset, de_continuation, ContinuationError, IdPager, Json, StreamPager, MAX_PAGES,
};
use papr_sync::provider::Provider;
use papr_sync::pull::{pull_remote_items, server_state_sets, Pull, StatePull};
use papr_sync::tags::{READING_LIST, READ_TAG};
use papr_sync::world::{Action, Event, SyncError};

/// A page of ids as the server writes it.
fn id_list(source: &str) -> IdList {
    let value: serde_json::Value = serde_json::from_str(source).unwrap();
    let item_refs = value["itemRefs"]
        .as_array()
        .unwrap()
        .iter()
        .map(|r| r["id"].as_str().unwrap().to_string())
        .collect();
    let continuation = match value.get("continuation") {
        Some(c) => de_continuation(&c.to_string()).unwrap(),
        None => None,
    };
    IdList { item_refs, continuation }
}

#[test]
fn ids_continuation_accepts_miniflux_string_form() {
    // Miniflux serialises the continuation offset as a JSON string.
    let page = id_list(r#"{"itemRefs":[{"id":"1"},{"id":"2"}],"continuation":"1000"}"#);
    assert_eq!(page.continuation, Some(1000));
    assert_eq!(page.item_refs.len(), 2);
}

#[test]
fn ids_continuation_accepts_numeric_form_and_missing() {
    // Some servers emit a plain number; the end of the stream omits the
    // field (or sends `0` / `null`).
    let page = id_list(r#"{"itemRefs":[{"id":"1"}],"continuation":1000}"#);
    assert_eq!(page.continuation, Some(1000));

    let end = id_list(r#"{"itemRefs":[]}"#);
    assert_eq!(end.continuation, None);

    let zero = id_list(r#"{"itemRefs":[],"continuation":0}"#);
    assert_eq!(zero.continuation, Some(0));

    let null = id_list(r#"{"itemRefs":[],"continuation":null}"#);
    assert_eq!(null.continuation, None);
}

#[test]
fn continuation_forms_and_errors() {
    assert_eq!(de_continuation("1000"), Ok(Some(1000)));
    assert_eq!(de_continuation("\"1000\""), Ok(Some(1000)));
    assert_eq!(de_continuation("\"+5\""), Ok(Some(5)));
    assert_eq!(de_continuation("\"\""), Ok(None));
    assert_eq!(de_continuation("null"), Ok(None));
    assert_eq!(de_continuation("-1"), Err(ContinuationError::NotAnOffset));
    assert_eq!(de_continuation("1.5"), Err(ContinuationError::NotAnOffset));
    assert_eq!(de_continuation("\"abc\""), Err(ContinuationError::NotANumber));
    assert_eq!(de_continuation("\" 1\""), Err(ContinuationError::NotANumber));
    assert_eq!(
        de_continuation("\"99999999999999999999999\""),
        Err(ContinuationError::NotANumber)
    );
    assert_eq!(de_continuation("true"), Err(ContinuationError::Unexpected));
    assert_eq!(de_continuation("[]"), Err(ContinuationError::Unexpected));
    assert_eq!(de_continuation("{}"), Err(ContinuationError::Unexpected));
    assert_eq!(de_continuation("{"), Err(ContinuationError::NotJson));
    assert_eq!(de_continuation(""), Err(ContinuationError::NotJson));
}

#[test]
fn continuation_of_parsed_values() {
    for n in [0u64, 7, 1000] {
        assert_eq!(continuation_offset(Json::Number(Some(n))), Ok(Some(n as usize)));
        assert_eq!(continuation_offset(Json::Text(n.to_string())), Ok(Some(n as usize)));
    }
    assert_eq!(continuation_offset(Json::Number(None)), Err(ContinuationError::NotAnOffset));
    assert_eq!(continuation_offset(Json::Bool(false)), Err(ContinuationError::Unexpected));
    assert_eq!(continuation_offset(Json::List), Err(ContinuationError::Unexpected));
    assert_eq!(continuation_offset(Json::Record), Err(ContinuationError::Unexpected));
    assert_eq!(continuation_offset(Json::Null), Ok(None));
}

fn session() -> Session {
    Session {
        base: "https://s.example".to_string(),
        auth: "auth".to_string(),
        token: "token".to_string(),
    }
}

fn pairs(fields: &[(String, String)]) -> Vec<(&str, &str)> {
    fields.iter().map(|(k, v)| (k.as_str(), v.as_str())).collect()
}

fn call(action: Option<Action>) -> Request {
    match action {
        Some(Action::Call(request)) => request,
        other => panic!("not a request: {other:?}"),
    }
}

fn form(request: &Request) -> Vec<(&str, &str)> {
    match &request.body {
        Body::Form(form) => pairs(form),
        other => panic!("{other:?}"),
    }
}

fn names(range: std::ops::Range<usize>) -> Vec<String> {
    range.map(|i| format!("id{i}")).collect()
}

fn item(url: &str) -> Item {
    Item {
        id: format!("id of {url}"),
        title: None,
        author: None,
        published: None,
        summary: None,
        content: None,
        origin: None,
        categories: vec![],
        canonical: vec![],
        alternate: vec![Href { href: url.to_string() }],
    }
}

fn page(urls: &[&str], continuation: Option<&str>) -> Contents {
    Contents {
        items: urls.iter().map(|u| item(u)).collect(),
        continuation: continuation.map(str::to_string),
    }
}

#[test]
fn id_pages_are_asked_for_by_offset() {
    let pager = IdPager::new(READING_LIST, Some(READ_TAG));
    let first = pager.request(&session());
    assert_eq!(first.method, Method::Get);
    assert_eq!(first.url, "https://s.example/reader/api/0/stream/items/ids");
    assert_eq!(
        pairs(&first.query),
        vec![("output", "json"), ("s", READING_LIST), ("n", "1000"), ("xt", READ_TAG)]
    );
    let pager = pager.accept(IdList { item_refs: names(0..3), continuation: Some(3) });
    assert!(!pager.done());
    assert_eq!(pairs(&pager.request(&session()).query).last(), Some(&("c", "3")));
    let pager = pager.accept(IdList { item_refs: names(3..4), continuation: None });
    assert!(pager.done());
    assert_eq!(pager.ids, names(0..4));
}

#[test]
fn an_offset_that_does_not_advance_ends_the_stream() {
    for stuck in [Some(0), Some(2), Some(3), None] {
        let pager = IdPager::new("s", None)
            .accept(IdList { item_refs: names(0..3), continuation: Some(3) })
            .accept(IdList { item_refs: names(3..5), continuation: stuck });
        assert!(pager.done());
        assert_eq!(pager.ids, names(0..5));
    }
    let pager = IdPager::new("s", None)
        .accept(IdList { item_refs: names(0..1), continuation: Some(0) });
    assert!(pager.done());
}

#[test]
fn a_stream_of_ids_is_read_whole() {
    let all = names(0..2345);
    let mut pager = IdPager::new("s", None);
    let mut pages = 0;
    while !pager.done() {
        let from = pager.offset.unwrap_or(0);
        let to = (from + 1000).min(all.len());
        let continuation = if to < all.len() { Some(to) } else { Some(0) };
        pager = pager.accept(IdList { item_refs: all[from..to].to_vec(), continuation });
        pages += 1;
    }
    assert_eq!(pages, 3);
    assert_eq!(pager.ids, all);
}

#[test]
fn no_server_can_page_forever() {
    let mut ids = IdPager::new("s", None);
    let mut stream = StreamPager::new("s", None);
    for n in 1..=MAX_PAGES {
        assert!(!ids.done());
        assert!(!stream.done());
        ids = ids.accept(IdList { item_refs: names(n..n + 1), continuation: Some(n) });
        stream = stream.accept(page(&["u"], Some("more")));
    }
    assert!(ids.done());
    assert!(stream.done());
    assert_eq!(ids.ids.len(), MAX_PAGES);
    assert_eq!(stream.items.len(), MAX_PAGES);
}

#[test]
fn item_pages_are_asked_for_by_token() {
    let pager = StreamPager::new(READING_LIST, Some(READ_TAG));
    let first = pager.request(&session());
    assert_eq!(
        first.url,
        "https://s.example/reader/api/0/stream/contents/user/-/state/com.google/reading-list"
    );
    assert_eq!(
        pairs(&first.query),
        vec![("output", "json"), ("n", "1000"), ("xt", READ_TAG)]
    );
    let pager = pager.accept(page(&["a", "b"], Some("t1")));
    assert_eq!(pairs(&pager.request(&session()).query).last(), Some(&("c", "t1")));
    let pager = pager.accept(page(&["c"], Some("")));
    assert!(pager.done());
    let ids: Vec<&str> = pager.items.iter().map(|i| i.id.as_str()).collect();
    assert_eq!(ids, vec!["id of a", "id of b", "id of c"]);
}

#[test]
fn miniflux_items_are_fetched_in_chunks_of_ids() {
    let s = session();
    let pull = pull_remote_items(Provider::Miniflux);
    let ids = call(pull.action(&s));
    assert_eq!(
        pairs(&ids.query),
        vec![("output", "json"), ("s", READING_LIST), ("n", "1000")]
    );
    let mut pull = pull.accept(Event::Ids(IdList { item_refs: names(0..1001), continuation: None }));
    let mut asked: Vec<String> = Vec::new();
    for size in [500, 500, 1] {
        let request = call(pull.action(&s));
        assert_eq!(request.url, "https://s.example/reader/api/0/stream/items/contents");
        let fields = form(&request);
        assert_eq!(fields[..2], [("T", "token"), ("output", "json")]);
        assert_eq!(fields.len(), 2 + size);
        for (name, id) in &fields[2..] {
            assert_eq!(*name, "i");
            asked.push(id.to_string());
        }
        pull = pull.accept(Event::Contents(page(&["u"], None)));
    }
    assert_eq!(asked, names(0..1001));
    match pull {
        Pull::Done(items) => assert_eq!(items.len(), 3),
        other => panic!("{other:?}"),
    }
}

#[test]
fn an_empty_reading_list_needs_no_item_request() {
    let pull = pull_remote_items(Provider::Miniflux)
        .accept(Event::Ids(IdList { item_refs: vec![], continuation: None }));
    assert!(matches!(pull, Pull::Done(items) if items.is_empty()));
}

#[test]
fn freshrss_pull_joins_unread_and_starred() {
    let s = session();
    let pull = pull_remote_items(Provider::FreshRss)
        .accept(Event::Contents(page(&["a"], Some("t"))))
        .accept(Event::Contents(page(&["b"], None)));
    let starred = call(pull.action(&s));
    assert_eq!(
        starred.url,
        "https://s.example/reader/api/0/stream/contents/user/-/state/com.google/starred"
    );
    assert_eq!(pairs(&starred.query), vec![("output", "json"), ("n", "1000")]);
    match pull.accept(Event::Contents(page(&["c"], None))) {
        Pull::Done(items) => {
            let ids: Vec<&str> = items.iter().map(|i| i.id.as_str()).collect();
            assert_eq!(ids, vec!["id of a", "id of b", "id of c"]);
        }
        other => panic!("{other:?}"),
    }
}

#[test]
fn a_failed_pull_ends_in_its_error() {
    for (event, error) in [
        (Event::Unreachable, SyncError::Outside),
        (Event::Refused(500), SyncError::Outside),
        (Event::Failed, SyncError::Outside),
        (Event::Stored, SyncError::Unexpected),
    ] {
        let pull = pull_remote_items(Provider::FreshRss).accept(event);
        assert!(pull.action(&session()).is_none());
        assert!(matches!(pull, Pull::Broken(e) if e == error));
    }
}

#[test]
fn freshrss_state_sets_hold_the_addresses() {
    let pull = server_state_sets(Provider::FreshRss)
        .accept(Event::Contents(page(&["a", "  ", " b "], None)))
        .accept(Event::Contents(page(&["c"], None)));
    match pull {
        StatePull::Done { unread_urls, starred_urls } => {
            assert_eq!(unread_urls, vec!["a", "b"]);
            assert_eq!(starred_urls, vec!["c"]);
        }
        other => panic!("{other:?}"),
    }
}

#[test]
fn miniflux_state_sets_ask_for_items_only_where_there_are_ids() {
    let s = session();
    let ids = |n: usize| Event::Ids(IdList { item_refs: names(0..n), continuation: None });
    let pull = server_state_sets(Provider::Miniflux);
    assert_eq!(pairs(&call(pull.action(&s)).query).last(), Some(&("xt", READ_TAG)));
    let pull = pull.accept(ids(2)).accept(ids(1));
    assert_eq!(
        form(&call(pull.action(&s))),
        vec![("T", "token"), ("output", "json"), ("i", "id0"), ("i", "id1")]
    );
    let pull = pull.accept(Event::Contents(page(&["a", "b"], None)));
    assert_eq!(
        form(&call(pull.action(&s))),
        vec![("T", "token"), ("output", "json"), ("i", "id0")]
    );
    match pull.accept(Event::Contents(page(&["b"], None))) {
        StatePull::Done { unread_urls, starred_urls } => {
            assert_eq!(unread_urls, vec!["a", "b"]);
            assert_eq!(starred_urls, vec!["b"]);
        }
        other => panic!("{other:?}"),
    }
    let none = server_state_sets(Provider::Miniflux).accept(ids(0)).accept(ids(0));
    assert!(matches!(
        none,
        StatePull::Done { unread_urls, starred_urls }
            if unread_urls.is_empty() && starred_urls.is_empty()
    ));
    let only_starred = server_state_sets(Provider::Miniflux).accept(ids(0)).accept(ids(3));
    assert!(matches!(only_starred, StatePull::StarredItems { .. }));
}
