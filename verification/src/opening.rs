//! Opening a session from the stored connection, or from a user's name and
//! password.
use vstd::prelude::*;

use crate::greader::{
    auth_in, login_call, login_request, parse_auth, token_call, token_request, Session,
    SessionView,
};
use crate::provider::{greader_base, root_of, Provider};
use crate::settings::{
    creds, creds_in, key_writes, law_connection_remembered, law_key_remembered, nonempty, or_empty,
    persist_api_key, persist_session, session_writes, Creds, CredsView, SettingsView,
};
use crate::text;
use crate::world::{Action, ActionView, Event, EventView, SyncError};

verus! {

/// Reads the stored connection and opens a session: with the stored token, or
/// with an old stored password, which is then replaced by the token it gave.
#[derive(Debug)]
pub enum Opening {
    Reading,
    LoggingIn { creds: Creds },
    /// `fresh` where the auth token has just been issued and is not stored yet.
    FetchingToken { creds: Creds, auth: String, fresh: bool },
    Persisting { creds: Creds, session: Session },
    /// No server is configured.
    Closed,
    Ready { creds: Creds, session: Session },
    Broken(SyncError),
}

pub enum OpeningView {
    Reading,
    LoggingIn { creds: CredsView },
    FetchingToken { creds: CredsView, auth: Seq<char>, fresh: bool },
    Persisting { creds: CredsView, session: SessionView },
    Closed,
    Ready { creds: CredsView, session: SessionView },
    Broken(SyncError),
}

impl DeepView for Opening {
    type V = OpeningView;

    open spec fn deep_view(&self) -> OpeningView {
        match self {
            Opening::Reading => OpeningView::Reading,
            Opening::LoggingIn { creds } => OpeningView::LoggingIn { creds: creds.deep_view() },
            Opening::FetchingToken { creds, auth, fresh } => OpeningView::FetchingToken {
                creds: creds.deep_view(),
                auth: auth@,
                fresh: *fresh,
            },
            Opening::Persisting { creds, session } => OpeningView::Persisting {
                creds: creds.deep_view(),
                session: session.deep_view(),
            },
            Opening::Closed => OpeningView::Closed,
            Opening::Ready { creds, session } => OpeningView::Ready {
                creds: creds.deep_view(),
                session: session.deep_view(),
            },
            Opening::Broken(error) => OpeningView::Broken(*error),
        }
    }
}

impl CredsView {
    /// The root of the interface that the credentials are for.
    pub open spec fn base(self) -> Seq<char> {
        root_of(self.url, self.provider)
    }

    /// How a session is opened with the credentials: with the token where there
    /// is one, else by logging in.
    pub open spec fn opening(self) -> OpeningView {
        match self.auth {
            Some(auth) => OpeningView::FetchingToken { creds: self, auth, fresh: false },
            None => OpeningView::LoggingIn { creds: self },
        }
    }
}

impl OpeningView {
    /// The next action, if there is one.
    pub open spec fn action(self) -> Option<ActionView> {
        match self {
            OpeningView::Reading => Some(ActionView::ReadSettings),
            OpeningView::LoggingIn { creds } => Some(
                ActionView::Call(login_call(creds.base(), creds.user, or_empty(creds.legacy_pass))),
            ),
            OpeningView::FetchingToken { creds, auth, fresh } => Some(
                ActionView::Call(token_call(creds.base(), auth)),
            ),
            OpeningView::Persisting { creds, session } => Some(
                ActionView::WriteSettings(
                    session_writes(creds.url, creds.user, session.auth, creds.provider),
                ),
            ),
            _ => None,
        }
    }

    /// The state after an event.
    pub open spec fn accept(self, event: EventView) -> OpeningView {
        match self {
            OpeningView::Reading => match event {
                EventView::Settings(s) => match creds_in(s) {
                    Some(creds) => creds.opening(),
                    None => OpeningView::Closed,
                },
                _ => OpeningView::Broken(event.fault()),
            },
            OpeningView::LoggingIn { creds } => match event {
                EventView::Text(body) => match auth_in(body) {
                    Some(auth) => OpeningView::FetchingToken { creds, auth, fresh: true },
                    None => OpeningView::Broken(SyncError::NoToken),
                },
                EventView::Refused(_) => OpeningView::Broken(SyncError::LoginFailed),
                _ => OpeningView::Broken(event.fault()),
            },
            OpeningView::FetchingToken { creds, auth, fresh } => match event {
                EventView::Text(body) => {
                    let session = SessionView {
                        base: creds.base(),
                        auth,
                        token: text::trimmed(body),
                    };
                    if fresh {
                        OpeningView::Persisting { creds, session }
                    } else {
                        OpeningView::Ready { creds, session }
                    }
                },
                EventView::Refused(_) => OpeningView::Broken(SyncError::LoginFailed),
                EventView::Unreachable => OpeningView::Broken(SyncError::LoginFailed),
                _ => OpeningView::Broken(event.fault()),
            },
            OpeningView::Persisting { creds, session } => match event {
                EventView::Stored => OpeningView::Ready { creds, session },
                _ => OpeningView::Broken(event.fault()),
            },
            _ => self,
        }
    }
}

fn base_of(creds: &Creds) -> (r: String)
    ensures
        r@ == creds.deep_view().base(),
{
    greader_base(creds.url.as_str(), creds.provider)
}

impl Opening {
    /// The next action, if the opening is not over.
    pub fn action(&self) -> (r: Option<Action>)
        ensures
            r.deep_view() == self.deep_view().action(),
    {
        match self {
            Opening::Reading => Some(Action::ReadSettings),
            Opening::LoggingIn { creds } => {
                let base = base_of(creds);
                let pass = match &creds.legacy_pass {
                    Some(pass) => pass.clone(),
                    None => String::new(),
                };
                Some(
                    Action::Call(
                        login_request(base.as_str(), creds.user.as_str(), pass.as_str()),
                    ),
                )
            },
            Opening::FetchingToken { creds, auth, fresh } => {
                let base = base_of(creds);
                Some(Action::Call(token_request(base.as_str(), auth.as_str())))
            },
            Opening::Persisting { creds, session } => Some(
                Action::WriteSettings(
                    persist_session(
                        creds.url.as_str(),
                        creds.user.as_str(),
                        session.auth.as_str(),
                        creds.provider,
                    ),
                ),
            ),
            _ => None,
        }
    }

    /// Opens a session with credentials.
    pub fn with_creds(creds: Creds) -> (r: Self)
        ensures
            r.deep_view() == creds.deep_view().opening(),
    {
        match &creds.auth {
            Some(auth) => {
                let auth = auth.clone();
                Opening::FetchingToken { creds, auth, fresh: false }
            },
            None => Opening::LoggingIn { creds },
        }
    }

    /// Takes in how the last action ended.
    pub fn accept(self, event: Event) -> (r: Self)
        ensures
            r.deep_view() == self.deep_view().accept(event.deep_view()),
    {
        match self {
            Opening::Reading => match event {
                Event::Settings(s) => match creds(&s) {
                    Some(creds) => Opening::with_creds(creds),
                    None => Opening::Closed,
                },
                _ => Opening::Broken(event.fault()),
            },
            Opening::LoggingIn { creds } => match event {
                Event::Text(body) => match parse_auth(body.as_str()) {
                    Some(auth) => Opening::FetchingToken { creds, auth, fresh: true },
                    None => Opening::Broken(SyncError::NoToken),
                },
                Event::Refused(_) => Opening::Broken(SyncError::LoginFailed),
                _ => Opening::Broken(event.fault()),
            },
            Opening::FetchingToken { creds, auth, fresh } => match event {
                Event::Text(body) => {
                    let session = Session {
                        base: base_of(&creds),
                        auth,
                        token: text::trim(body.as_str()).to_owned(),
                    };
                    if fresh {
                        Opening::Persisting { creds, session }
                    } else {
                        Opening::Ready { creds, session }
                    }
                },
                Event::Refused(_) => Opening::Broken(SyncError::LoginFailed),
                Event::Unreachable => Opening::Broken(SyncError::LoginFailed),
                _ => Opening::Broken(event.fault()),
            },
            Opening::Persisting { creds, session } => match event {
                Event::Stored => Opening::Ready { creds, session },
                _ => Opening::Broken(event.fault()),
            },
            Opening::Closed => Opening::Closed,
            Opening::Ready { creds, session } => Opening::Ready { creds, session },
            Opening::Broken(error) => Opening::Broken(error),
        }
    }
}

/// Verifies a user's name and password with a server and stores the connection.
#[derive(Debug)]
pub enum Connect {
    Opening { opening: Opening, api_key: Option<String> },
    StoringKey { api_key: Option<String> },
    Done(Result<(), SyncError>),
}

pub enum ConnectView {
    Opening { opening: OpeningView, api_key: Option<Seq<char>> },
    StoringKey { api_key: Option<Seq<char>> },
    Done(Result<(), SyncError>),
}

impl DeepView for Connect {
    type V = ConnectView;

    open spec fn deep_view(&self) -> ConnectView {
        match self {
            Connect::Opening { opening, api_key } => ConnectView::Opening {
                opening: opening.deep_view(),
                api_key: api_key.deep_view(),
            },
            Connect::StoringKey { api_key } => ConnectView::StoringKey {
                api_key: api_key.deep_view(),
            },
            Connect::Done(result) => ConnectView::Done(*result),
        }
    }
}

impl ConnectView {
    /// The state before the first event.
    pub open spec fn start(
        url: Seq<char>,
        user: Seq<char>,
        pass: Seq<char>,
        provider: Provider,
        api_key: Option<Seq<char>>,
    ) -> ConnectView {
        ConnectView::Opening {
            opening: OpeningView::LoggingIn {
                creds: CredsView {
                    url,
                    user,
                    auth: None,
                    legacy_pass: Some(pass),
                    miniflux_api_key: None,
                    provider,
                },
            },
            api_key,
        }
    }

    /// The next action, if there is one.
    pub open spec fn action(self) -> Option<ActionView> {
        match self {
            ConnectView::Opening { opening, api_key } => opening.action(),
            ConnectView::StoringKey { api_key } => Some(
                ActionView::WriteSettings(key_writes(api_key)),
            ),
            ConnectView::Done(_) => None,
        }
    }

    /// The state after an event.
    pub open spec fn accept(self, event: EventView) -> ConnectView {
        match self {
            ConnectView::Opening { opening, api_key } => match opening.accept(event) {
                OpeningView::Ready { creds, session } => if creds.provider == Provider::Miniflux {
                    ConnectView::StoringKey { api_key }
                } else {
                    ConnectView::Done(Ok(()))
                },
                OpeningView::Broken(error) => ConnectView::Done(Err(error)),
                OpeningView::Closed => ConnectView::Done(Err(SyncError::NotConnected)),
                opening => ConnectView::Opening { opening, api_key },
            },
            ConnectView::StoringKey { api_key } => match event {
                EventView::Stored => ConnectView::Done(Ok(())),
                _ => ConnectView::Done(Err(event.fault())),
            },
            ConnectView::Done(_) => self,
        }
    }
}

/// Starts to verify credentials with the server and, on success, to store them.
pub fn connect(
    url: &str,
    user: &str,
    pass: &str,
    provider: Option<&str>,
    api_key: Option<&str>,
) -> (r: Connect)
    ensures
        r.deep_view() == ConnectView::start(
            url@,
            user@,
            pass@,
            Provider::named(provider.deep_view()),
            api_key.deep_view(),
        ),
{
    let creds = Creds {
        url: url.to_owned(),
        user: user.to_owned(),
        auth: None,
        legacy_pass: Some(pass.to_owned()),
        miniflux_api_key: None,
        provider: Provider::from_setting(provider),
    };
    Connect::Opening {
        opening: Opening::LoggingIn { creds },
        api_key: match api_key {
            Some(key) => Some(key.to_owned()),
            None => None,
        },
    }
}

impl Connect {
    /// The next action, if the operation is not over.
    pub fn action(&self) -> (r: Option<Action>)
        ensures
            r.deep_view() == self.deep_view().action(),
    {
        match self {
            Connect::Opening { opening, api_key } => opening.action(),
            Connect::StoringKey { api_key } => {
                let key = match api_key {
                    Some(key) => Some(key.as_str()),
                    None => None,
                };
                Some(Action::WriteSettings(persist_api_key(key)))
            },
            Connect::Done(_) => None,
        }
    }

    /// Takes in how the last action ended.
    pub fn accept(self, event: Event) -> (r: Self)
        ensures
            r.deep_view() == self.deep_view().accept(event.deep_view()),
    {
        match self {
            Connect::Opening { opening, api_key } => match opening.accept(event) {
                Opening::Ready { creds, session } => match creds.provider {
                    Provider::Miniflux => Connect::StoringKey { api_key },
                    Provider::FreshRss => Connect::Done(Ok(())),
                },
                Opening::Broken(error) => Connect::Done(Err(error)),
                Opening::Closed => Connect::Done(Err(SyncError::NotConnected)),
                opening => Connect::Opening { opening, api_key },
            },
            Connect::StoringKey { api_key } => match event {
                Event::Stored => Connect::Done(Ok(())),
                _ => Connect::Done(Err(event.fault())),
            },
            Connect::Done(result) => Connect::Done(result),
        }
    }
}

/// With a stored token no password is sent: the first request asks for a write
/// token.
pub proof fn law_token_spares_password(creds: CredsView)
    requires
        creds.auth is Some,
    ensures
        creds.opening().action() == Some(
            ActionView::Call(token_call(creds.base(), creds.auth->0)),
        ),
{
}

/// Nothing is stored before the server has accepted the credentials: settings
/// are written only after a reply to the request for a write token, which
/// follows a login.
pub proof fn law_stored_only_when_verified(opening: OpeningView, event: EventView)
    requires
        opening.accept(event).action() is Some,
        opening.accept(event).action()->0 is WriteSettings,
    ensures
        opening matches OpeningView::FetchingToken { creds, auth, fresh } && fresh
            && opening.action() == Some(ActionView::Call(token_call(creds.base(), auth))),
        event is Text,
{
}

/// An old password is exchanged for a token, and the session is ready once the
/// token is stored. From then on the stored connection holds the token and no
/// password.
pub proof fn law_password_migrates(
    s: SettingsView,
    creds: CredsView,
    login: Seq<char>,
    token: Seq<char>,
)
    requires
        creds_in(s) == Some(creds),
        creds.auth is None,
        auth_in(login) is Some,
    ensures
        creds.opening().action() == Some(
            ActionView::Call(login_call(creds.base(), creds.user, or_empty(creds.legacy_pass))),
        ),
        ({
            let auth = auth_in(login)->0;
            let session = SessionView { base: creds.base(), auth, token: text::trimmed(token) };
            let writes = session_writes(creds.url, creds.user, auth, creds.provider);
            let storing = creds.opening().accept(EventView::Text(login)).accept(
                EventView::Text(token),
            );
            &&& storing.action() == Some(ActionView::WriteSettings(writes))
            &&& storing.accept(EventView::Stored) == OpeningView::Ready { creds, session }
            &&& creds_in(s.after(writes)) == Some(
                CredsView {
                    url: text::trimmed(creds.url),
                    auth: Some(auth),
                    legacy_pass: None,
                    ..creds
                },
            )
        }),
{
    let auth = auth_in(login)->0;
    law_connection_remembered(s, creds.url, creds.user, auth, creds.provider);
}

/// A session opens with the stored token as soon as the server hands out a write
/// token, and nothing is stored.
pub proof fn law_token_opens_session(creds: CredsView, token: Seq<char>)
    requires
        creds.auth is Some,
    ensures
        creds.opening().accept(EventView::Text(token)) == (OpeningView::Ready {
            creds,
            session: SessionView {
                base: creds.base(),
                auth: creds.auth->0,
                token: text::trimmed(token),
            },
        }),
{
}

/// A server that refuses the login, or the token, is reported as a failed login,
/// and a login reply without a token as such. Nothing is stored then.
pub proof fn law_login_failures(creds: CredsView, auth: Seq<char>, fresh: bool, status: u16)
    ensures
        (OpeningView::LoggingIn { creds }).accept(EventView::Refused(status))
            == OpeningView::Broken(SyncError::LoginFailed),
        (OpeningView::FetchingToken { creds, auth, fresh }).accept(EventView::Refused(status))
            == OpeningView::Broken(SyncError::LoginFailed),
        (OpeningView::FetchingToken { creds, auth, fresh }).accept(EventView::Unreachable)
            == OpeningView::Broken(SyncError::LoginFailed),
        forall|body: Seq<char>|
            auth_in(body) is None ==> (#[trigger] (OpeningView::LoggingIn { creds }).accept(
                EventView::Text(body),
            )) == OpeningView::Broken(SyncError::NoToken),
{
}

/// A verified connection is remembered: once the login and the write token have
/// come and the writes are stored, connecting succeeds, and what is stored then
/// holds the address, the user, the token and the provider, and for Miniflux the
/// given key, but no password.
pub proof fn law_connect_remembers(
    s: SettingsView,
    url: Seq<char>,
    user: Seq<char>,
    pass: Seq<char>,
    provider: Provider,
    api_key: Option<Seq<char>>,
    login: Seq<char>,
    token: Seq<char>,
)
    requires
        text::trimmed(url).len() > 0,
        user.len() > 0,
        auth_in(login) is Some,
    ensures
        ({
            let auth = auth_in(login)->0;
            let start = ConnectView::start(url, user, pass, provider, api_key);
            let storing = start.accept(EventView::Text(login)).accept(EventView::Text(token));
            let writes = session_writes(url, user, auth, provider);
            let stored = storing.accept(EventView::Stored);
            let remembered = CredsView {
                url: text::trimmed(url),
                user,
                auth: Some(auth),
                legacy_pass: None,
                miniflux_api_key: nonempty(s.miniflux_api_key),
                provider,
            };
            &&& start.action() == Some(
                ActionView::Call(login_call(root_of(url, provider), user, pass)),
            )
            &&& storing.action() == Some(ActionView::WriteSettings(writes))
            &&& creds_in(s.after(writes)) == Some(remembered)
            &&& provider == Provider::FreshRss ==> stored == ConnectView::Done(Ok(()))
            &&& provider == Provider::Miniflux ==> {
                &&& stored.action() == Some(ActionView::WriteSettings(key_writes(api_key)))
                &&& stored.accept(EventView::Stored) == ConnectView::Done(Ok(()))
                &&& creds_in(s.after(writes).after(key_writes(api_key))) == Some(
                    CredsView {
                        miniflux_api_key: nonempty(Some(text::trimmed(or_empty(api_key)))),
                        ..remembered
                    },
                )
            }
        }),
{
    let auth = auth_in(login)->0;
    let writes = session_writes(url, user, auth, provider);
    law_connection_remembered(s, url, user, auth, provider);
    law_key_remembered(s.after(writes), api_key);
}

/// The credentials are used at the interface root of their address and provider;
/// the old password is sent only where no token is stored, and as it is.
pub proof fn law_opening_addresses(creds: CredsView)
    ensures
        creds.base() == root_of(creds.url, creds.provider),
        creds.auth is None && creds.legacy_pass is Some ==> creds.opening().action() == Some(
            ActionView::Call(
                login_call(
                    root_of(creds.url, creds.provider),
                    creds.user,
                    creds.legacy_pass->0,
                ),
            ),
        ),
        creds.auth is Some ==> creds.opening().action() == Some(
            ActionView::Call(token_call(root_of(creds.url, creds.provider), creds.auth->0)),
        ),
{
}

/// An opening reads the settings, goes on with the credentials that they hold, and
/// is closed where they hold none.
pub proof fn law_opening_reads_settings(s: SettingsView)
    ensures
        OpeningView::Reading.action() == Some(ActionView::ReadSettings),
        creds_in(s) is None ==> OpeningView::Reading.accept(EventView::Settings(s))
            == OpeningView::Closed,
        creds_in(s) matches Some(creds) ==> OpeningView::Reading.accept(EventView::Settings(s))
            == creds.opening(),
{
}

/// What the world outside fails to do ends an opening as such: reading the
/// settings, a login that gets no answer, and storing the connection.
pub proof fn law_opening_failures(creds: CredsView, session: SessionView, event: EventView)
    requires
        event is Unreachable || event is Refused || event is Failed,
    ensures
        OpeningView::Reading.accept(event) == OpeningView::Broken(SyncError::Outside),
        !(event is Refused) ==> (OpeningView::LoggingIn { creds }).accept(event)
            == OpeningView::Broken(SyncError::Outside),
        event is Failed ==> forall|auth: Seq<char>, fresh: bool|
            (#[trigger] (OpeningView::FetchingToken { creds, auth, fresh }).accept(event))
                == OpeningView::Broken(SyncError::Outside),
        (OpeningView::Persisting { creds, session }).accept(event) == OpeningView::Broken(
            SyncError::Outside,
        ),
{
}

/// Connecting fails with the error of the opening, and with that of the store where
/// the key cannot be stored.
pub proof fn law_connect_failures(
    opening: OpeningView,
    api_key: Option<Seq<char>>,
    event: EventView,
    error: SyncError,
)
    ensures
        opening.accept(event) == OpeningView::Broken(error) ==> (ConnectView::Opening {
            opening,
            api_key,
        }).accept(event) == ConnectView::Done(Err(error)),
        event is Unreachable || event is Refused || event is Failed ==> (
        ConnectView::StoringKey { api_key }).accept(event) == ConnectView::Done(
            Err(SyncError::Outside),
        ),
{
}

}
