//! Providers, stored settings and opening a session.
use papr_sync::greader::parse_auth;
use papr_sync::http::{Body, Expect, Method};
use papr_sync::opening::{connect, Connect, Opening};
use papr_sync::provider::{greader_base, Provider};
use papr_sync::settings::{
    connected_url, creds, disconnect, persist_api_key, persist_session, SettingKey, Settings,
};
use papr_sync::world::{Action, Event, SyncError};

fn pairs(fields: &[(String, String)]) -> Vec<(&str, &str)> {
    fields.iter().map(|(k, v)| (k.as_str(), v.as_str())).collect()
}

fn store(settings: &mut Settings, writes: Vec<(SettingKey, String)>) {
    for (key, value) in writes {
        settings.set(key, Some(value));
    }
}

fn stored(url: &str, user: &str, auth: &str, pass: &str, provider: &str) -> Settings {
    let mut s = Settings::new();
    s.set(SettingKey::Url, Some(url.to_string()));
    s.set(SettingKey::User, Some(user.to_string()));
    s.set(SettingKey::Auth, Some(auth.to_string()));
    s.set(SettingKey::Pass, Some(pass.to_string()));
    s.set(SettingKey::Provider, Some(provider.to_string()));
    s
}

#[test]
fn settings_have_their_stored_names() {
    assert_eq!(SettingKey::Url.name(), "freshrss_url");
    assert_eq!(SettingKey::User.name(), "freshrss_user");
    assert_eq!(SettingKey::Auth.name(), "freshrss_auth");
    assert_eq!(SettingKey::Pass.name(), "freshrss_pass");
    assert_eq!(SettingKey::Provider.name(), "freshrss_provider");
    assert_eq!(SettingKey::MinifluxApiKey.name(), "miniflux_api_key");
}

#[test]
fn provider_round_trip_and_default() {
    assert_eq!(Provider::from_setting(Some("miniflux")), Provider::Miniflux);
    assert_eq!(Provider::from_setting(Some("  miniflux\n")), Provider::Miniflux);
    assert_eq!(Provider::from_setting(Some("freshrss")), Provider::FreshRss);
    assert_eq!(Provider::from_setting(Some("Miniflux")), Provider::FreshRss);
    assert_eq!(Provider::from_setting(None), Provider::FreshRss);
    for p in [Provider::FreshRss, Provider::Miniflux] {
        assert_eq!(Provider::from_setting(Some(p.as_str())), p);
    }
    assert_eq!(Provider::FreshRss.path_suffix(), "/api/greader.php");
    assert_eq!(Provider::Miniflux.path_suffix(), "");
}

#[test]
fn base_is_the_interface_root() {
    let fresh = |url: &str| greader_base(url, Provider::FreshRss);
    assert_eq!(fresh("https://a.example"), "https://a.example/api/greader.php");
    assert_eq!(fresh(" https://a.example// "), "https://a.example/api/greader.php");
    assert_eq!(
        fresh("https://a.example/api/greader.php"),
        "https://a.example/api/greader.php"
    );
    assert_eq!(
        fresh("https://a.example/api/greader.php/reader"),
        "https://a.example/api/greader.php/reader"
    );
    assert_eq!(greader_base(" https://m.example/ ", Provider::Miniflux), "https://m.example");
}

#[test]
fn base_of_a_base_is_that_base() {
    for url in ["https://a.example", " https://a.example/x/ ", "", "/", "a/api/greader.php/"] {
        for p in [Provider::FreshRss, Provider::Miniflux] {
            let base = greader_base(url, p);
            assert_eq!(greader_base(&base, p), base);
            assert_eq!(greader_base(url.trim(), p), base);
        }
    }
    // A root that ends in white space is the exception.
    assert_eq!(greader_base("x /", Provider::Miniflux), "x ");
    assert_eq!(greader_base("x ", Provider::Miniflux), "x");
}

#[test]
fn credentials_need_url_user_and_secret() {
    let full = stored("https://a.example", "ada", "tok", "", "");
    let c = creds(&full).unwrap();
    assert_eq!((c.url.as_str(), c.user.as_str()), ("https://a.example", "ada"));
    assert_eq!(c.auth.as_deref(), Some("tok"));
    assert_eq!(c.legacy_pass, None);
    assert_eq!(c.provider, Provider::FreshRss);
    assert!(creds(&stored("  ", "ada", "tok", "", "")).is_none());
    assert!(creds(&stored("u", "", "tok", "", "")).is_none());
    assert!(creds(&stored("u", "ada", "", "", "")).is_none());
    let old = creds(&stored("u", "ada", "", "secret", "miniflux")).unwrap();
    assert_eq!(old.auth, None);
    assert_eq!(old.legacy_pass.as_deref(), Some("secret"));
    assert_eq!(old.provider, Provider::Miniflux);
    assert!(creds(&Settings::new()).is_none());
}

#[test]
fn connection_is_remembered_and_forgotten() {
    let mut s = stored("old", "old", "", "plain", "");
    store(&mut s, persist_session(" https://m.example/ ", "ada", "tok", Provider::Miniflux));
    store(&mut s, persist_api_key(Some("  key ")));
    let c = creds(&s).unwrap();
    assert_eq!(c.url, "https://m.example/");
    assert_eq!(c.auth.as_deref(), Some("tok"));
    assert_eq!(c.legacy_pass, None);
    assert_eq!(c.miniflux_api_key.as_deref(), Some("key"));
    assert_eq!(
        connected_url(&s),
        Some(("https://m.example/".to_string(), "miniflux".to_string()))
    );
    store(&mut s, persist_api_key(None));
    assert_eq!(creds(&s).unwrap().miniflux_api_key, None);
    store(&mut s, disconnect());
    assert!(creds(&s).is_none());
    assert_eq!(connected_url(&s), None);
}

#[test]
fn login_reply_is_read() {
    assert_eq!(parse_auth("SID=a\nLSID=b\nAuth= tok \r\n").as_deref(), Some("tok"));
    assert_eq!(parse_auth("SID=a\nAuth=  \n"), None);
    assert_eq!(parse_auth("Error=BadAuthentication"), None);
}

fn request_of(action: Option<Action>) -> papr_sync::http::Request {
    match action {
        Some(Action::Call(request)) => request,
        other => panic!("not a request: {other:?}"),
    }
}

fn writes_of(action: Option<Action>) -> Vec<(SettingKey, String)> {
    match action {
        Some(Action::WriteSettings(writes)) => writes,
        other => panic!("not a write: {other:?}"),
    }
}

#[test]
fn connecting_logs_in_and_stores_the_token() {
    let run = connect(
        "https://m.example/",
        "ada",
        "pw",
        Some("miniflux"),
        Some(" key "),
    );
    let login = request_of(run.action());
    assert_eq!(login.method, Method::Post);
    assert_eq!(login.url, "https://m.example/accounts/ClientLogin");
    assert_eq!(login.expect, Expect::Login);
    match &login.body {
        Body::Form(form) => assert_eq!(pairs(form), vec![("Email", "ada"), ("Passwd", "pw")]),
        other => panic!("{other:?}"),
    }
    let run = run.accept(Event::Text("SID=x\nAuth=tok\n".to_string()));
    let token = request_of(run.action());
    assert_eq!(token.method, Method::Get);
    assert_eq!(token.url, "https://m.example/reader/api/0/token");
    assert_eq!(
        pairs(&token.headers),
        vec![("Authorization", "GoogleLogin auth=tok")]
    );
    let run = run.accept(Event::Text("write\n".to_string()));
    let mut s = Settings::new();
    store(&mut s, writes_of(run.action()));
    assert_eq!(s.pass.as_deref(), Some(""));
    let run = run.accept(Event::Stored);
    store(&mut s, writes_of(run.action()));
    let run = run.accept(Event::Stored);
    assert!(matches!(run, Connect::Done(Ok(()))));
    let c = creds(&s).unwrap();
    assert_eq!(c.auth.as_deref(), Some("tok"));
    assert_eq!(c.miniflux_api_key.as_deref(), Some("key"));
}

#[test]
fn connecting_to_freshrss_stores_no_key() {
    let run = connect("https://a.example", "ada", "pw", None, Some("key"))
        .accept(Event::Text("Auth=tok".to_string()))
        .accept(Event::Text("write".to_string()))
        .accept(Event::Stored);
    assert!(matches!(run, Connect::Done(Ok(()))));
}

#[test]
fn connecting_reports_each_failure() {
    let start = || connect("https://a.example", "ada", "pw", None, None);
    let fails = |run: Connect, error: SyncError| {
        assert!(run.action().is_none());
        assert!(matches!(run, Connect::Done(Err(e)) if e == error));
    };
    fails(start().accept(Event::Refused(401)), SyncError::LoginFailed);
    fails(start().accept(Event::Text("SID=1".to_string())), SyncError::NoToken);
    fails(start().accept(Event::Unreachable), SyncError::Outside);
    fails(start().accept(Event::Accepted), SyncError::Unexpected);
    let token = || start().accept(Event::Text("Auth=t".to_string()));
    fails(token().accept(Event::Refused(500)), SyncError::LoginFailed);
    fails(token().accept(Event::Unreachable), SyncError::LoginFailed);
    fails(token().accept(Event::Failed), SyncError::Outside);
    fails(
        token().accept(Event::Text("w".to_string())).accept(Event::Failed),
        SyncError::Outside,
    );
    assert_eq!(SyncError::LoginFailed.code(), Some("freshrssLoginFailed"));
    assert_eq!(SyncError::NoToken.code(), Some("freshrssNoToken"));
    assert_eq!(SyncError::NotConnected.code(), Some("freshrssNotConnected"));
    assert_eq!(SyncError::Outside.code(), None);
    assert_eq!(SyncError::Unexpected.code(), None);
}

#[test]
fn stored_token_opens_a_session_without_the_password() {
    let s = stored("https://a.example", "ada", "tok", "plain", "");
    let opening = Opening::Reading.accept(Event::Settings(s));
    let token = request_of(opening.action());
    assert_eq!(token.url, "https://a.example/api/greader.php/reader/api/0/token");
    match opening.accept(Event::Text(" write ".to_string())) {
        Opening::Ready { session, .. } => {
            assert_eq!(session.base, "https://a.example/api/greader.php");
            assert_eq!(session.auth, "tok");
            assert_eq!(session.token, "write");
        }
        other => panic!("{other:?}"),
    }
}

#[test]
fn old_password_is_exchanged_for_a_token() {
    let mut s = stored("https://a.example", "ada", "", "plain", "");
    let opening = Opening::with_creds(creds(&s).unwrap());
    let login = request_of(opening.action());
    match &login.body {
        Body::Form(form) => assert_eq!(pairs(form), vec![("Email", "ada"), ("Passwd", "plain")]),
        other => panic!("{other:?}"),
    }
    let opening = opening
        .accept(Event::Text("Auth=new".to_string()))
        .accept(Event::Text("write".to_string()));
    store(&mut s, writes_of(opening.action()));
    assert!(matches!(opening.accept(Event::Stored), Opening::Ready { .. }));
    let c = creds(&s).unwrap();
    assert_eq!(c.auth.as_deref(), Some("new"));
    assert_eq!(c.legacy_pass, None);
    assert!(matches!(
        Opening::with_creds(c),
        Opening::FetchingToken { fresh: false, .. }
    ));
}

#[test]
fn nothing_opens_without_a_connection() {
    let opening = Opening::Reading.accept(Event::Settings(Settings::new()));
    assert!(matches!(opening, Opening::Closed));
    assert!(matches!(
        Opening::Reading.accept(Event::Failed),
        Opening::Broken(SyncError::Outside)
    ));
}

#[test]
fn statuses_that_count_as_success() {
    assert!(Expect::Login.accepts(200));
    assert!(Expect::Login.accepts(299));
    assert!(!Expect::Login.accepts(304));
    assert!(!Expect::Login.accepts(403));
    assert!(Expect::Done.accepts(200));
    assert!(Expect::Done.accepts(304));
    assert!(!Expect::Ids.accepts(400));
    assert!(!Expect::Contents.accepts(599));
    assert!(Expect::Token.accepts(600));
}
