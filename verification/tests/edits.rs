//! Edits of subscriptions and folders on the server.
use papr_sync::data::{MinifluxCategory, Sub, SubCat};
use papr_sync::folders::{
    create_remote_folder, delete_remote_folder, find_miniflux_category_id, key_missing,
    miniflux_api,
    rename_remote_folder, sync_remote_folders, FolderPull, FolderRun,
};
use papr_sync::greader::Session;
use papr_sync::http::{Body, Expect, Method, Request};
use papr_sync::settings::{creds, SettingKey, Settings};
use papr_sync::subscriptions::{
    feeds_to_push, replace_subscription_url, set_subscription_folder_url,
    unsubscribe_subscription_url, EditRun,
};
use papr_sync::tags::{folder_tag, label_tag, subscription_stream, STARRED_TAG, READ_TAG};
use papr_sync::world::{Action, Event, SyncError};

fn settings(provider: &str, key: &str) -> Settings {
    let mut s = Settings::new();
    s.set(SettingKey::Url, Some("https://s.example/".to_string()));
    s.set(SettingKey::User, Some("ada".to_string()));
    s.set(SettingKey::Auth, Some("auth".to_string()));
    s.set(SettingKey::Provider, Some(provider.to_string()));
    s.set(SettingKey::MinifluxApiKey, Some(key.to_string()));
    s
}

fn pairs(fields: &[(String, String)]) -> Vec<(&str, &str)> {
    fields.iter().map(|(k, v)| (k.as_str(), v.as_str())).collect()
}

fn call(action: Option<Action>) -> Request {
    match action {
        Some(Action::Call(request)) => request,
        other => panic!("not a request: {other:?}"),
    }
}

fn form(request: &Request) -> Vec<(&str, &str)> {
    match &request.body {
        Body::Form(form) => pairs(form),
        other => panic!("{other:?}"),
    }
}

fn cat(id: &str, label: Option<&str>) -> SubCat {
    SubCat { id: id.to_string(), label: label.map(str::to_string) }
}

fn sub(id: &str, url: &str, categories: Vec<SubCat>) -> Sub {
    Sub { id: id.to_string(), url: Some(url.to_string()), title: None, categories }
}

/// Runs an edit up to the reply with the subscriptions.
fn listed(run: EditRun, subs: Vec<Sub>) -> EditRun {
    let run = run
        .accept(Event::Settings(settings("miniflux", "")))
        .accept(Event::Text("token".to_string()));
    let list = call(run.action());
    assert_eq!(list.url, "https://s.example/reader/api/0/subscription/list?output=json");
    assert_eq!(list.expect, Expect::Subscriptions);
    run.accept(Event::Subscriptions(subs))
}

#[test]
fn unsubscribing_names_the_stream() {
    let run = listed(
        unsubscribe_subscription_url("https://a.example/feed"),
        vec![
            sub("feed/1", "https://b.example/feed", vec![]),
            sub("feed/2", "https://a.example/feed", vec![]),
        ],
    );
    let request = call(run.action());
    assert_eq!(request.method, Method::Post);
    assert_eq!(request.url, "https://s.example/reader/api/0/subscription/edit");
    assert_eq!(
        form(&request),
        vec![("ac", "unsubscribe"), ("s", "feed/2"), ("T", "token")]
    );
    let run = run.accept(Event::Accepted);
    assert!(run.action().is_none());
    assert!(matches!(run, EditRun::Done(Ok(true))));
}

#[test]
fn replacing_unsubscribes_and_then_subscribes() {
    let run = listed(
        replace_subscription_url("https://old.example", "https://new.example"),
        vec![sub("", "https://old.example", vec![])],
    );
    assert_eq!(
        form(&call(run.action())),
        vec![("ac", "unsubscribe"), ("s", "feed/https://old.example"), ("T", "token")]
    );
    let run = run.accept(Event::Accepted);
    assert_eq!(
        form(&call(run.action())),
        vec![("ac", "subscribe"), ("s", "feed/https://new.example"), ("T", "token")]
    );
    assert!(matches!(run.accept(Event::Accepted), EditRun::Done(Ok(true))));
}

#[test]
fn a_refused_step_ends_an_edit() {
    let run = listed(
        replace_subscription_url("https://old.example", "https://new.example"),
        vec![sub("", "https://old.example", vec![])],
    )
    .accept(Event::Refused(500));
    assert!(run.action().is_none());
    assert!(matches!(run, EditRun::Done(Err(SyncError::Outside))));
}

#[test]
fn an_unknown_subscription_is_left_alone() {
    for run in [
        unsubscribe_subscription_url("https://a.example"),
        replace_subscription_url("https://a.example", "https://b.example"),
    ] {
        let run = listed(run, vec![sub("feed/1", "https://A.example", vec![])]);
        assert!(matches!(run, EditRun::Done(Ok(false))));
    }
}

#[test]
fn setting_a_folder_removes_the_others() {
    let run = listed(
        set_subscription_folder_url("https://a.example", Some(" Tech ")),
        vec![sub(
            "feed/1",
            "https://a.example",
            vec![
                cat("user/-/label/Tech", Some("Tech")),
                cat("user/7/label/News", Some("News")),
                cat("", Some("Old")),
                cat("user/-/label/Uncategorized", None),
                cat("user/-/state/com.google/read", None),
            ],
        )],
    );
    assert_eq!(
        form(&call(run.action())),
        vec![
            ("ac", "edit"),
            ("s", "feed/1"),
            ("T", "token"),
            ("a", "user/-/label/Tech"),
            ("r", "user/7/label/News"),
            ("r", "user/-/label/Old"),
        ]
    );
}

#[test]
fn leaving_all_folders_adds_none() {
    for folder in [None, Some("  ")] {
        let run = listed(
            set_subscription_folder_url("https://a.example", folder),
            vec![sub("feed/1", "https://a.example", vec![cat("user/-/label/Tech", None)])],
        );
        assert_eq!(
            form(&call(run.action())),
            vec![("ac", "edit"), ("s", "feed/1"), ("T", "token"), ("r", "user/-/label/Tech")]
        );
    }
}

#[test]
fn setting_a_folder_subscribes_a_missing_feed_first() {
    let run = listed(set_subscription_folder_url("https://a.example", Some("Tech")), vec![]);
    assert_eq!(
        form(&call(run.action())),
        vec![("ac", "subscribe"), ("s", "feed/https://a.example"), ("T", "token")]
    );
    let run = run.accept(Event::Accepted);
    assert_eq!(
        form(&call(run.action())),
        vec![
            ("ac", "edit"),
            ("s", "feed/https://a.example"),
            ("T", "token"),
            ("a", "user/-/label/Tech"),
        ]
    );
    assert!(matches!(run.accept(Event::Accepted), EditRun::Done(Ok(true))));
}

#[test]
fn edits_do_nothing_without_a_connection() {
    let run = unsubscribe_subscription_url("u").accept(Event::Settings(Settings::new()));
    assert!(matches!(run, EditRun::Done(Ok(false))));
    let run = unsubscribe_subscription_url("u").accept(Event::Failed);
    assert!(matches!(run, EditRun::Done(Err(SyncError::Outside))));
    let run = unsubscribe_subscription_url("u")
        .accept(Event::Settings(settings("", "")))
        .accept(Event::Refused(401));
    assert!(matches!(run, EditRun::Done(Err(SyncError::LoginFailed))));
}

#[test]
fn pushing_what_is_missing_leaves_nothing_missing() {
    let local: Vec<String> = ["a", "b", "a", "c"].iter().map(|s| s.to_string()).collect();
    let mut server = vec!["c".to_string()];
    let missing: Vec<String> =
        feeds_to_push(&local, &server).iter().map(|s| s.to_string()).collect();
    assert_eq!(missing, vec!["a", "b", "a"]);
    server.extend(missing);
    assert!(feeds_to_push(&local, &server).is_empty());
}

#[test]
fn state_changes_set_and_clear_tags() {
    let s = Session {
        base: "https://s.example".to_string(),
        auth: "auth".to_string(),
        token: "token".to_string(),
    };
    let request = s.push_state("item", "starred", true);
    assert_eq!(request.url, "https://s.example/reader/api/0/edit-tag");
    assert_eq!(pairs(&request.headers), vec![("Authorization", "GoogleLogin auth=auth")]);
    assert_eq!(form(&request), vec![("i", "item"), ("a", STARRED_TAG), ("T", "token")]);
    let request = s.push_state("item", "read", false);
    assert_eq!(form(&request), vec![("i", "item"), ("r", READ_TAG), ("T", "token")]);
}

#[test]
fn labels_and_streams() {
    assert_eq!(label_tag(" Tech "), "user/-/label/Tech");
    assert_eq!(folder_tag(&cat("user/1/label/x", None)).as_deref(), Some("user/1/label/x"));
    assert_eq!(folder_tag(&cat("weird", Some("x"))).as_deref(), Some("user/-/label/x"));
    assert_eq!(folder_tag(&cat("user/-/state/x", None)), None);
    assert_eq!(cat(&label_tag("Tech"), None).folder_name().as_deref(), Some("Tech"));
    assert_eq!(cat("user/-/label/a/label/b", None).folder_name().as_deref(), Some("b"));
    assert_eq!(subscription_stream(&sub("feed/1", "u", vec![]), "u"), "feed/1");
    assert_eq!(subscription_stream(&sub("", "u", vec![]), "u"), "feed/u");
}

fn category(id: i64, title: &str) -> MinifluxCategory {
    MinifluxCategory { id, title: title.to_string() }
}

#[test]
fn native_interface_needs_miniflux_and_a_key() {
    let native = |s: &Settings| {
        let c = creds(s).unwrap();
        miniflux_api(&c).map(|(base, key)| (base, key.to_string()))
    };
    assert_eq!(
        native(&settings("miniflux", "k")),
        Some(("https://s.example".to_string(), "k".to_string()))
    );
    assert_eq!(native(&settings("miniflux", "")), None);
    assert_eq!(native(&settings("freshrss", "k")), None);
    assert!(key_missing(&settings("miniflux", "")));
    assert!(!key_missing(&settings("miniflux", "k")));
    assert!(!key_missing(&settings("freshrss", "")));
    assert!(!key_missing(&Settings::new()));
}

#[test]
fn categories_are_found_by_title() {
    let all = [category(1, " News "), category(2, "tech"), category(3, "Tech")];
    assert_eq!(find_miniflux_category_id(&all, "TECH "), Some(2));
    assert_eq!(find_miniflux_category_id(&all, "news"), Some(1));
    assert_eq!(find_miniflux_category_id(&all, "other"), None);
    assert_eq!(find_miniflux_category_id(&[], "x"), None);
}

fn with_key(run: FolderRun, categories: Vec<MinifluxCategory>) -> FolderRun {
    let run = run.accept(Event::Settings(settings("miniflux", "k")));
    let list = call(run.action());
    assert_eq!(list.method, Method::Get);
    assert_eq!(list.url, "https://s.example/v1/categories");
    assert_eq!(pairs(&list.headers), vec![("X-Auth-Token", "k")]);
    run.accept(Event::Categories(categories))
}

fn title(request: &Request) -> &str {
    match &request.body {
        Body::Title(title) => title,
        other => panic!("{other:?}"),
    }
}

#[test]
fn folders_are_created_once() {
    let run = with_key(create_remote_folder(" Tech "), vec![category(1, "News")]);
    let request = call(run.action());
    assert_eq!(request.method, Method::Post);
    assert_eq!(request.url, "https://s.example/v1/categories");
    assert_eq!(title(&request), "Tech");
    assert!(matches!(run.accept(Event::Accepted), FolderRun::Done(Ok(true))));
    let again = with_key(
        create_remote_folder(" Tech "),
        vec![category(1, "News"), category(2, "Tech")],
    );
    assert!(again.action().is_none());
    assert!(matches!(again, FolderRun::Done(Ok(true))));
}

#[test]
fn folders_are_renamed_and_deleted_by_id() {
    let run = with_key(rename_remote_folder("tech", " New "), vec![category(-12, "Tech")]);
    let request = call(run.action());
    assert_eq!(request.method, Method::Put);
    assert_eq!(request.url, "https://s.example/v1/categories/-12");
    assert_eq!(title(&request), "New");
    assert!(matches!(run.accept(Event::Refused(404)), FolderRun::Done(Err(SyncError::Outside))));
    let run = with_key(delete_remote_folder("tech"), vec![category(12, "Tech")]);
    let request = call(run.action());
    assert_eq!(request.method, Method::Delete);
    assert_eq!(request.url, "https://s.example/v1/categories/12");
    assert!(matches!(request.body, Body::Empty));
    for run in [rename_remote_folder("x", "y"), delete_remote_folder("x")] {
        assert!(matches!(with_key(run, vec![]), FolderRun::Done(Ok(false))));
    }
}

#[test]
fn folder_operations_do_nothing_without_a_key() {
    for s in [
        || Settings::new(),
        || settings("miniflux", ""),
        || settings("freshrss", "k"),
    ] {
        for run in [
            create_remote_folder("x"),
            rename_remote_folder("x", "y"),
            delete_remote_folder("x"),
        ] {
            assert!(matches!(run.accept(Event::Settings(s())), FolderRun::Done(Ok(false))));
        }
        let pull = sync_remote_folders().accept(Event::Settings(s()));
        assert!(matches!(pull, FolderPull::Done(Ok(false))));
    }
}

#[test]
fn folders_are_brought_over_with_the_empty_ones() {
    let listing = || sync_remote_folders().accept(Event::Settings(settings("miniflux", "k")));
    let mut pull = listing().accept(Event::Categories(vec![
        category(1, " News "),
        category(2, "  "),
        category(3, "Tech"),
    ]));
    let mut names = Vec::new();
    while let Some(Action::EnsureFolder(name)) = pull.action() {
        names.push(name);
        pull = pull.accept(Event::Folder(names.len() as i64));
    }
    assert_eq!(names, vec![" News ", "Tech"]);
    assert!(matches!(pull, FolderPull::Done(Ok(true))));
    let none = listing().accept(Event::Categories(vec![]));
    assert!(matches!(none, FolderPull::Done(Ok(false))));
    let blank = listing().accept(Event::Categories(vec![category(1, "")]));
    assert!(matches!(blank, FolderPull::Done(Ok(true))));
}
