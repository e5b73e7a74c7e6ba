//! The stored connection: which settings hold it, how it is read, written and
//! forgotten. The keys begin with `freshrss_` whatever the provider is.
use vstd::prelude::*;

use crate::provider::{law_setting_round_trip, Provider};
use crate::text;

verus! {

/// A stored setting that describes the connection.
#[derive(Clone, Copy, Debug, PartialEq, Eq, Structural)]
pub enum SettingKey {
    Url,
    User,
    Auth,
    Pass,
    Provider,
    MinifluxApiKey,
}

impl DeepView for SettingKey {
    type V = SettingKey;

    open spec fn deep_view(&self) -> SettingKey {
        *self
    }
}

impl SettingKey {
    /// The key's name in the store.
    pub open spec fn name_of(self) -> Seq<char> {
        match self {
            SettingKey::Url => "freshrss_url"@,
            SettingKey::User => "freshrss_user"@,
            SettingKey::Auth => "freshrss_auth"@,
            SettingKey::Pass => "freshrss_pass"@,
            SettingKey::Provider => "freshrss_provider"@,
            SettingKey::MinifluxApiKey => "miniflux_api_key"@,
        }
    }

    /// The key's name in the store.
    pub fn name(self) -> (r: &'static str)
        ensures
            r@ == self.name_of(),
    {
        match self {
            SettingKey::Url => "freshrss_url",
            SettingKey::User => "freshrss_user",
            SettingKey::Auth => "freshrss_auth",
            SettingKey::Pass => "freshrss_pass",
            SettingKey::Provider => "freshrss_provider",
            SettingKey::MinifluxApiKey => "miniflux_api_key",
        }
    }
}

/// The connection's settings as the store holds them.
#[derive(Debug)]
pub struct Settings {
    pub url: Option<String>,
    pub user: Option<String>,
    pub auth: Option<String>,
    pub pass: Option<String>,
    pub provider: Option<String>,
    pub miniflux_api_key: Option<String>,
}

pub struct SettingsView {
    pub url: Option<Seq<char>>,
    pub user: Option<Seq<char>>,
    pub auth: Option<Seq<char>>,
    pub pass: Option<Seq<char>>,
    pub provider: Option<Seq<char>>,
    pub miniflux_api_key: Option<Seq<char>>,
}

impl DeepView for Settings {
    type V = SettingsView;

    open spec fn deep_view(&self) -> SettingsView {
        SettingsView {
            url: self.url.deep_view(),
            user: self.user.deep_view(),
            auth: self.auth.deep_view(),
            pass: self.pass.deep_view(),
            provider: self.provider.deep_view(),
            miniflux_api_key: self.miniflux_api_key.deep_view(),
        }
    }
}

impl SettingsView {
    /// The settings with nothing stored.
    pub open spec fn empty() -> SettingsView {
        SettingsView {
            url: None,
            user: None,
            auth: None,
            pass: None,
            provider: None,
            miniflux_api_key: None,
        }
    }

    /// The settings with `value` stored under `key`.
    pub open spec fn with(self, key: SettingKey, value: Option<Seq<char>>) -> SettingsView {
        match key {
            SettingKey::Url => SettingsView { url: value, ..self },
            SettingKey::User => SettingsView { user: value, ..self },
            SettingKey::Auth => SettingsView { auth: value, ..self },
            SettingKey::Pass => SettingsView { pass: value, ..self },
            SettingKey::Provider => SettingsView { provider: value, ..self },
            SettingKey::MinifluxApiKey => SettingsView { miniflux_api_key: value, ..self },
        }
    }

    /// The settings after the writes, in order.
    pub open spec fn after(self, writes: Seq<(SettingKey, Seq<char>)>) -> SettingsView
        decreases writes.len(),
    {
        if writes.len() == 0 {
            self
        } else {
            self.with(writes[0].0, Some(writes[0].1)).after(writes.drop_first())
        }
    }
}

impl Settings {
    /// The settings with nothing stored.
    pub fn new() -> (r: Self)
        ensures
            r.deep_view() == SettingsView::empty(),
    {
        Settings {
            url: None,
            user: None,
            auth: None,
            pass: None,
            provider: None,
            miniflux_api_key: None,
        }
    }

    /// Records what the store holds under `key`.
    pub fn set(&mut self, key: SettingKey, value: Option<String>)
        ensures
            final(self).deep_view() == old(self).deep_view().with(key, value.deep_view()),
    {
        match key {
            SettingKey::Url => {
                self.url = value;
            },
            SettingKey::User => {
                self.user = value;
            },
            SettingKey::Auth => {
                self.auth = value;
            },
            SettingKey::Pass => {
                self.pass = value;
            },
            SettingKey::Provider => {
                self.provider = value;
            },
            SettingKey::MinifluxApiKey => {
                self.miniflux_api_key = value;
            },
        }
    }
}

/// Stored credentials. The long-lived auth token is kept rather than the
/// password; `legacy_pass` is a plain password left by an older installation,
/// to be exchanged for a token once. `miniflux_api_key` opens Miniflux's native
/// interface.
#[derive(Debug)]
pub struct Creds {
    pub url: String,
    pub user: String,
    pub auth: Option<String>,
    pub legacy_pass: Option<String>,
    pub miniflux_api_key: Option<String>,
    pub provider: Provider,
}

pub struct CredsView {
    pub url: Seq<char>,
    pub user: Seq<char>,
    pub auth: Option<Seq<char>>,
    pub legacy_pass: Option<Seq<char>>,
    pub miniflux_api_key: Option<Seq<char>>,
    pub provider: Provider,
}

impl DeepView for Creds {
    type V = CredsView;

    open spec fn deep_view(&self) -> CredsView {
        CredsView {
            url: self.url@,
            user: self.user@,
            auth: self.auth.deep_view(),
            legacy_pass: self.legacy_pass.deep_view(),
            miniflux_api_key: self.miniflux_api_key.deep_view(),
            provider: self.provider,
        }
    }
}

/// A stored text unless it is empty.
pub open spec fn nonempty(o: Option<Seq<char>>) -> Option<Seq<char>> {
    if o is Some && o->0.len() > 0 {
        o
    } else {
        None
    }
}

/// A stored text, or the empty one.
pub open spec fn or_empty(o: Option<Seq<char>>) -> Seq<char> {
    match o {
        Some(s) => s,
        None => Seq::empty(),
    }
}

/// The credentials that the settings hold: an address that is not blank, a
/// user, and a token or an old password are needed.
pub open spec fn creds_in(s: SettingsView) -> Option<CredsView> {
    if text::trimmed(or_empty(s.url)).len() == 0 || or_empty(s.user).len() == 0 || (nonempty(
        s.auth,
    ) is None && nonempty(s.pass) is None) {
        None
    } else {
        Some(
            CredsView {
                url: or_empty(s.url),
                user: or_empty(s.user),
                auth: nonempty(s.auth),
                legacy_pass: nonempty(s.pass),
                miniflux_api_key: nonempty(s.miniflux_api_key),
                provider: Provider::named(s.provider),
            },
        )
    }
}

fn keep_nonempty(o: &Option<String>) -> (r: Option<String>)
    ensures
        r.deep_view() == nonempty(o.deep_view()),
{
    match o {
        Some(s) => {
            if s.as_str().is_empty() {
                None
            } else {
                Some(s.clone())
            }
        },
        None => None,
    }
}

fn text_or_empty(o: &Option<String>) -> (r: String)
    ensures
        r@ == or_empty(o.deep_view()),
{
    match o {
        Some(s) => s.clone(),
        None => String::new(),
    }
}

/// Stored credentials, if a server is configured.
pub fn creds(s: &Settings) -> (r: Option<Creds>)
    ensures
        r.deep_view() == creds_in(s.deep_view()),
{
    let url = text_or_empty(&s.url);
    let user = text_or_empty(&s.user);
    let auth = keep_nonempty(&s.auth);
    let legacy_pass = keep_nonempty(&s.pass);
    let miniflux_api_key = keep_nonempty(&s.miniflux_api_key);
    let provider = match &s.provider {
        Some(p) => Provider::from_setting(Some(p.as_str())),
        None => Provider::from_setting(None),
    };
    if text::trim(url.as_str()).is_empty() || user.as_str().is_empty() || (auth.is_none()
        && legacy_pass.is_none()) {
        return None;
    }
    Some(Creds { url, user, auth, legacy_pass, miniflux_api_key, provider })
}

/// The configured server address and the provider's name, or `None` when not
/// connected.
pub fn connected_url(s: &Settings) -> (r: Option<(String, String)>)
    ensures
        r.deep_view() == match creds_in(s.deep_view()) {
            Some(c) => Some((c.url, c.provider.name())),
            None => None,
        },
{
    match creds(s) {
        Some(c) => Some((c.url, c.provider.as_str().to_owned())),
        None => None,
    }
}

/// The writes that store a verified connection.
pub open spec fn session_writes(
    url: Seq<char>,
    user: Seq<char>,
    auth: Seq<char>,
    provider: Provider,
) -> Seq<(SettingKey, Seq<char>)> {
    seq![
        (SettingKey::Url, text::trimmed(url)),
        (SettingKey::User, user),
        (SettingKey::Auth, auth),
        (SettingKey::Pass, ""@),
        (SettingKey::Provider, provider.name()),
    ]
}

fn write(writes: &mut Vec<(SettingKey, String)>, key: SettingKey, value: &str)
    ensures
        final(writes).deep_view() == old(writes).deep_view().push((key, value@)),
{
    writes.push((key, value.to_owned()));
    assert(writes.deep_view() =~= old(writes).deep_view().push((key, value@)));
}

fn no_writes() -> (r: Vec<(SettingKey, String)>)
    ensures
        r.deep_view() == Seq::<(SettingKey, Seq<char>)>::empty(),
{
    let r: Vec<(SettingKey, String)> = Vec::new();
    assert(r.deep_view() =~= Seq::<(SettingKey, Seq<char>)>::empty());
    r
}

/// Stores a verified connection: the auth token and never the password; an old
/// stored password is cleared.
pub fn persist_session(url: &str, user: &str, auth: &str, provider: Provider) -> (r: Vec<
    (SettingKey, String),
>)
    ensures
        r.deep_view() == session_writes(url@, user@, auth@, provider),
{
    let mut writes = no_writes();
    write(&mut writes, SettingKey::Url, text::trim(url));
    write(&mut writes, SettingKey::User, user);
    write(&mut writes, SettingKey::Auth, auth);
    write(&mut writes, SettingKey::Pass, "");
    write(&mut writes, SettingKey::Provider, provider.as_str());
    writes
}

/// The write that stores the key of Miniflux's native interface.
pub open spec fn key_writes(api_key: Option<Seq<char>>) -> Seq<(SettingKey, Seq<char>)> {
    seq![(SettingKey::MinifluxApiKey, text::trimmed(match api_key {
        Some(k) => k,
        None => ""@,
    }))]
}

/// Stores the key of Miniflux's native interface, or its absence.
pub fn persist_api_key(api_key: Option<&str>) -> (r: Vec<(SettingKey, String)>)
    ensures
        r.deep_view() == key_writes(api_key.deep_view()),
{
    let key = match api_key {
        Some(k) => k,
        None => "",
    };
    let mut writes = no_writes();
    write(&mut writes, SettingKey::MinifluxApiKey, text::trim(key));
    writes
}

/// The writes that forget the connection.
pub open spec fn forget_writes() -> Seq<(SettingKey, Seq<char>)> {
    seq![
        (SettingKey::Url, ""@),
        (SettingKey::User, ""@),
        (SettingKey::Auth, ""@),
        (SettingKey::Pass, ""@),
        (SettingKey::Provider, ""@),
        (SettingKey::MinifluxApiKey, ""@),
    ]
}

/// Forgets the stored credentials.
pub fn disconnect() -> (r: Vec<(SettingKey, String)>)
    ensures
        r.deep_view() == forget_writes(),
{
    let mut writes = no_writes();
    write(&mut writes, SettingKey::Url, "");
    write(&mut writes, SettingKey::User, "");
    write(&mut writes, SettingKey::Auth, "");
    write(&mut writes, SettingKey::Pass, "");
    write(&mut writes, SettingKey::Provider, "");
    write(&mut writes, SettingKey::MinifluxApiKey, "");
    writes
}

/// After forgetting the connection, no server is configured, whatever was
/// stored before.
pub proof fn law_disconnect_forgets(s: SettingsView)
    ensures
        creds_in(s.after(forget_writes())) is None,
{
    reveal_strlit("");
    reveal_with_fuel(SettingsView::after, 7);
    text::law_trimmed_fixed(""@);
}

/// A stored connection is read back: the address without surrounding white
/// space, the user, the token and the provider, and the key that was there
/// before. No password is kept, whatever was stored before.
pub proof fn law_connection_remembered(
    s: SettingsView,
    url: Seq<char>,
    user: Seq<char>,
    auth: Seq<char>,
    provider: Provider,
)
    requires
        text::trimmed(url).len() > 0,
        user.len() > 0,
        auth.len() > 0,
    ensures
        creds_in(s.after(session_writes(url, user, auth, provider))) == Some(
            CredsView {
                url: text::trimmed(url),
                user,
                auth: Some(auth),
                legacy_pass: None,
                miniflux_api_key: nonempty(s.miniflux_api_key),
                provider,
            },
        ),
{
    reveal_strlit("");
    reveal_with_fuel(SettingsView::after, 6);
    text::law_trimmed_idempotent(url);
    law_setting_round_trip(provider);
}

/// Storing a connection leaves an empty password in the store.
pub proof fn law_password_cleared(
    s: SettingsView,
    url: Seq<char>,
    user: Seq<char>,
    auth: Seq<char>,
    provider: Provider,
)
    ensures
        s.after(session_writes(url, user, auth, provider)).pass == Some(""@),
{
    reveal_with_fuel(SettingsView::after, 6);
}

/// Storing the key of the native interface changes that key alone; a blank key
/// counts as none.
pub proof fn law_key_remembered(s: SettingsView, api_key: Option<Seq<char>>)
    ensures
        creds_in(s.after(key_writes(api_key))) == match creds_in(s) {
            Some(creds) => Some(
                CredsView {
                    miniflux_api_key: nonempty(Some(text::trimmed(or_empty(api_key)))),
                    ..creds
                },
            ),
            None => None,
        },
{
    reveal_strlit("");
    reveal_with_fuel(SettingsView::after, 2);
    assert(""@ =~= Seq::<char>::empty());
}

/// The names under which the store holds the connection.
pub proof fn law_setting_names()
    ensures
        SettingKey::Url.name_of() == "freshrss_url"@,
        SettingKey::User.name_of() == "freshrss_user"@,
        SettingKey::Auth.name_of() == "freshrss_auth"@,
        SettingKey::Pass.name_of() == "freshrss_pass"@,
        SettingKey::Provider.name_of() == "freshrss_provider"@,
        SettingKey::MinifluxApiKey.name_of() == "miniflux_api_key"@,
{
}

/// Storing under a key changes what is stored under it and nothing else.
pub proof fn law_setting_stored(s: SettingsView, key: SettingKey, value: Option<Seq<char>>)
    ensures
        s.with(key, value).url == if key is Url { value } else { s.url },
        s.with(key, value).user == if key is User { value } else { s.user },
        s.with(key, value).auth == if key is Auth { value } else { s.auth },
        s.with(key, value).pass == if key is Pass { value } else { s.pass },
        s.with(key, value).provider == if key is Provider { value } else { s.provider },
        s.with(key, value).miniflux_api_key == if key is MinifluxApiKey {
            value
        } else {
            s.miniflux_api_key
        },
{
}

/// A server is configured exactly where an address that is not blank, a user, and a
/// token or an old password are stored; the credentials are what is stored, as it
/// is, and an empty token, password or key counts as none.
pub proof fn law_credentials_read(s: SettingsView)
    ensures
        creds_in(s) is Some <==> {
            &&& s.url is Some && text::trimmed(s.url->0).len() > 0
            &&& s.user is Some && s.user->0.len() > 0
            &&& (s.auth is Some && s.auth->0.len() > 0) || (s.pass is Some && s.pass->0.len() > 0)
        },
        creds_in(s) matches Some(creds) ==> {
            &&& Some(creds.url) == s.url
            &&& Some(creds.user) == s.user
            &&& creds.auth == if s.auth == Some(Seq::<char>::empty()) { None } else { s.auth }
            &&& creds.legacy_pass == if s.pass == Some(Seq::<char>::empty()) {
                None
            } else {
                s.pass
            }
            &&& creds.miniflux_api_key == if s.miniflux_api_key == Some(Seq::<char>::empty()) {
                None
            } else {
                s.miniflux_api_key
            }
            &&& creds.provider is Miniflux <==> s.provider is Some && text::trimmed(s.provider->0)
                == "miniflux"@
        },
{
    assert forall|t: Seq<char>| #[trigger] t.len() == 0 implies t == Seq::<char>::empty() by {
        assert(t =~= Seq::<char>::empty());
    }
    text::law_trimmed_fixed(Seq::empty());
}

/// What the store holds once a connection is stored: the address without
/// surrounding white space, user and token as they were given, no password, the
/// provider's name, and the key that was there before.
pub proof fn law_connection_stored(
    s: SettingsView,
    url: Seq<char>,
    user: Seq<char>,
    auth: Seq<char>,
    provider: Provider,
)
    ensures
        s.after(session_writes(url, user, auth, provider)) == (SettingsView {
            url: Some(text::trimmed(url)),
            user: Some(user),
            auth: Some(auth),
            pass: Some(""@),
            provider: Some(
                match provider {
                    Provider::FreshRss => "freshrss"@,
                    Provider::Miniflux => "miniflux"@,
                },
            ),
            miniflux_api_key: s.miniflux_api_key,
        }),
{
    reveal_with_fuel(SettingsView::after, 6);
}

/// Forgetting the connection leaves nothing of it in the store, and storing a key
/// changes nothing else there.
pub proof fn law_store_cleared(s: SettingsView, api_key: Option<Seq<char>>)
    ensures
        s.after(forget_writes()) == (SettingsView {
            url: Some(""@),
            user: Some(""@),
            auth: Some(""@),
            pass: Some(""@),
            provider: Some(""@),
            miniflux_api_key: Some(""@),
        }),
        s.after(key_writes(api_key)) == (SettingsView {
            miniflux_api_key: Some(
                match api_key {
                    Some(key) => text::trimmed(key),
                    None => ""@,
                },
            ),
            ..s
        }),
{
    reveal_with_fuel(SettingsView::after, 7);
    reveal_strlit("");
    text::law_trimmed_fixed(""@);
}

}
