//! What the synchronisation asks of the world around it, and what it hears
//! back. The logic of this crate performs no input or output: each operation is
//! a machine that names its next [`Action`] and takes in the [`Event`] with
//! which the action ended.
use vstd::prelude::*;

use crate::data::{
    CategoryView, Contents, ContentsView, FeedTarget, FeedTargetView, IdList, IdListView,
    MinifluxCategory, NewArticle, NewArticleView, Sub, SubView, SyncEntry, SyncEntryView,
};
use crate::http::{Request, RequestView};
use crate::item::{RenderJob, RenderJobView, Rendering, RenderingView};
use crate::settings::{SettingKey, Settings, SettingsView};

verus! {

/// One step of outside work: a request to the server, or an access to the local
/// store.
#[derive(Debug)]
pub enum Action {
    /// Read the stored connection. Answered by `Settings`.
    ReadSettings,
    /// Write settings, in order. Answered by `Stored`.
    WriteSettings(Vec<(SettingKey, String)>),
    /// Send a request. Answered by the reply that it expects.
    Call(Request),
    /// Take the queued local changes that can be sent out of the queue.
    /// Answered by `Queue`.
    TakeQueue,
    /// Put changes back into the queue. Answered by `Stored`.
    Requeue(Vec<SyncEntry>),
    /// Find or make the folder of this name. Answered by `Folder`.
    EnsureFolder(String),
    /// Find a feed by its address. Answered by `Feed`.
    FindFeed(String),
    /// Add a feed. Answered by `NewFeed`.
    InsertFeed { url: String, title: String, folder: Option<i64> },
    /// Read which folder a feed is in. Answered by `FeedFolder`.
    ReadFeedFolder(i64),
    /// Move a feed. Answered by `Stored`.
    MoveFeed { feed: i64, folder: Option<i64> },
    /// List the local feeds. Answered by `Feeds`.
    ListFeeds,
    /// Find an article by its address. Answered by `Article`.
    FindByUrl(String),
    /// Find an article by its id on the server. Answered by `Article`.
    FindByRemoteId(String),
    /// Find an article of a feed by its guid. Answered by `Article`.
    FindByGuid { feed: i64, guid: String },
    /// Work out the plain texts and the publication time of an item. Answered
    /// by `Rendered`.
    Render(RenderJob),
    /// Store an article. Answered by `Imported`.
    StoreArticle { feed: i64, new: NewArticle },
    /// Note an article's id on the server. Answered by `Stored`.
    SetRemoteId { article: i64, remote_id: String },
    /// Ask whether an article has a local change that was not sent yet.
    /// Answered by `Pending`.
    AskPending(i64),
    /// Set an article's read and starred state. Answered by `Stored`.
    SetState { article: i64, read: bool, starred: bool },
    /// Drop what is queued for an article. Answered by `Stored`.
    ClearQueue(i64),
    /// Align all articles of these feeds, except those with a change that was
    /// not sent yet, with the addresses of the unread and the starred articles.
    /// An article that is aligned already is left as it is.
    /// Answered by `Tail`.
    ReconcileTail { feeds: Vec<String>, unread_urls: Vec<String>, starred_urls: Vec<String> },
}

#[verifier::ext_equal]
pub enum ActionView {
    ReadSettings,
    WriteSettings(Seq<(SettingKey, Seq<char>)>),
    Call(RequestView),
    TakeQueue,
    Requeue(Seq<SyncEntryView>),
    EnsureFolder(Seq<char>),
    FindFeed(Seq<char>),
    InsertFeed { url: Seq<char>, title: Seq<char>, folder: Option<i64> },
    ReadFeedFolder(i64),
    MoveFeed { feed: i64, folder: Option<i64> },
    ListFeeds,
    FindByUrl(Seq<char>),
    FindByRemoteId(Seq<char>),
    FindByGuid { feed: i64, guid: Seq<char> },
    Render(RenderJobView),
    StoreArticle { feed: i64, new: NewArticleView },
    SetRemoteId { article: i64, remote_id: Seq<char> },
    AskPending(i64),
    SetState { article: i64, read: bool, starred: bool },
    ClearQueue(i64),
    ReconcileTail {
        feeds: Seq<Seq<char>>,
        unread_urls: Seq<Seq<char>>,
        starred_urls: Seq<Seq<char>>,
    },
}

impl DeepView for Action {
    type V = ActionView;

    open spec fn deep_view(&self) -> ActionView {
        match self {
            Action::ReadSettings => ActionView::ReadSettings,
            Action::WriteSettings(writes) => ActionView::WriteSettings(writes.deep_view()),
            Action::Call(request) => ActionView::Call(request.deep_view()),
            Action::TakeQueue => ActionView::TakeQueue,
            Action::Requeue(entries) => ActionView::Requeue(entries.deep_view()),
            Action::EnsureFolder(name) => ActionView::EnsureFolder(name@),
            Action::FindFeed(url) => ActionView::FindFeed(url@),
            Action::InsertFeed { url, title, folder } => ActionView::InsertFeed {
                url: url@,
                title: title@,
                folder: *folder,
            },
            Action::ReadFeedFolder(feed) => ActionView::ReadFeedFolder(*feed),
            Action::MoveFeed { feed, folder } => ActionView::MoveFeed {
                feed: *feed,
                folder: *folder,
            },
            Action::ListFeeds => ActionView::ListFeeds,
            Action::FindByUrl(url) => ActionView::FindByUrl(url@),
            Action::FindByRemoteId(id) => ActionView::FindByRemoteId(id@),
            Action::FindByGuid { feed, guid } => ActionView::FindByGuid {
                feed: *feed,
                guid: guid@,
            },
            Action::Render(job) => ActionView::Render(job.deep_view()),
            Action::StoreArticle { feed, new } => ActionView::StoreArticle {
                feed: *feed,
                new: new.deep_view(),
            },
            Action::SetRemoteId { article, remote_id } => ActionView::SetRemoteId {
                article: *article,
                remote_id: remote_id@,
            },
            Action::AskPending(article) => ActionView::AskPending(*article),
            Action::SetState { article, read, starred } => ActionView::SetState {
                article: *article,
                read: *read,
                starred: *starred,
            },
            Action::ClearQueue(article) => ActionView::ClearQueue(*article),
            Action::ReconcileTail {
                feeds,
                unread_urls,
                starred_urls,
            } => ActionView::ReconcileTail {
                feeds: feeds.deep_view(),
                unread_urls: unread_urls.deep_view(),
                starred_urls: starred_urls.deep_view(),
            },
        }
    }
}

/// How an [`Action`] ended.
#[derive(Debug)]
pub enum Event {
    Settings(Settings),
    /// The store was changed as asked.
    Stored,
    /// The text of a reply.
    Text(String),
    /// A reply of which only the success matters.
    Accepted,
    Subscriptions(Vec<Sub>),
    Ids(IdList),
    Contents(Contents),
    Categories(Vec<MinifluxCategory>),
    Queue(Vec<SyncEntry>),
    Folder(i64),
    Feed(Option<i64>),
    NewFeed(i64),
    FeedFolder(Option<i64>),
    Feeds(Vec<FeedTarget>),
    Article(Option<i64>),
    Rendered(Rendering),
    /// Whether the article is a new one.
    Imported(bool),
    Pending(bool),
    /// How many articles were aligned that were not aligned already, by an item
    /// or before: none of them has been counted yet.
    Tail(usize),
    /// The request could not be sent.
    Unreachable,
    /// The server answered with a status that the request does not accept.
    Refused(u16),
    /// The reply could not be read, or the store failed.
    Failed,
}

#[verifier::ext_equal]
pub enum EventView {
    Settings(SettingsView),
    Stored,
    Text(Seq<char>),
    Accepted,
    Subscriptions(Seq<SubView>),
    Ids(IdListView),
    Contents(ContentsView),
    Categories(Seq<CategoryView>),
    Queue(Seq<SyncEntryView>),
    Folder(i64),
    Feed(Option<i64>),
    NewFeed(i64),
    FeedFolder(Option<i64>),
    Feeds(Seq<FeedTargetView>),
    Article(Option<i64>),
    Rendered(RenderingView),
    Imported(bool),
    Pending(bool),
    Tail(usize),
    Unreachable,
    Refused(u16),
    Failed,
}

impl DeepView for Event {
    type V = EventView;

    open spec fn deep_view(&self) -> EventView {
        match self {
            Event::Settings(settings) => EventView::Settings(settings.deep_view()),
            Event::Stored => EventView::Stored,
            Event::Text(body) => EventView::Text(body@),
            Event::Accepted => EventView::Accepted,
            Event::Subscriptions(subs) => EventView::Subscriptions(subs.deep_view()),
            Event::Ids(page) => EventView::Ids(page.deep_view()),
            Event::Contents(page) => EventView::Contents(page.deep_view()),
            Event::Categories(categories) => EventView::Categories(categories.deep_view()),
            Event::Queue(entries) => EventView::Queue(entries.deep_view()),
            Event::Folder(id) => EventView::Folder(*id),
            Event::Feed(id) => EventView::Feed(*id),
            Event::NewFeed(id) => EventView::NewFeed(*id),
            Event::FeedFolder(id) => EventView::FeedFolder(*id),
            Event::Feeds(feeds) => EventView::Feeds(feeds.deep_view()),
            Event::Article(id) => EventView::Article(*id),
            Event::Rendered(rendering) => EventView::Rendered(rendering.deep_view()),
            Event::Imported(new) => EventView::Imported(*new),
            Event::Pending(pending) => EventView::Pending(*pending),
            Event::Tail(count) => EventView::Tail(*count),
            Event::Unreachable => EventView::Unreachable,
            Event::Refused(status) => EventView::Refused(*status),
            Event::Failed => EventView::Failed,
        }
    }
}

/// Why an operation ended without a result.
#[derive(Clone, Copy, Debug, PartialEq, Eq, Structural)]
pub enum SyncError {
    /// No server is configured.
    NotConnected,
    /// The server does not accept the credentials.
    LoginFailed,
    /// The login reply carries no token.
    NoToken,
    /// The last action failed.
    Outside,
    /// The last action was answered by an event of the wrong kind.
    Unexpected,
}

impl SyncError {
    /// The error's code in messages to the user, where it has one.
    pub open spec fn code_of(self) -> Option<Seq<char>> {
        match self {
            SyncError::NotConnected => Some("freshrssNotConnected"@),
            SyncError::LoginFailed => Some("freshrssLoginFailed"@),
            SyncError::NoToken => Some("freshrssNoToken"@),
            SyncError::Outside => None,
            SyncError::Unexpected => None,
        }
    }

    /// The error's code in messages to the user, where it has one.
    pub fn code(self) -> (r: Option<&'static str>)
        ensures
            r.deep_view() == self.code_of(),
    {
        match self {
            SyncError::NotConnected => Some("freshrssNotConnected"),
            SyncError::LoginFailed => Some("freshrssLoginFailed"),
            SyncError::NoToken => Some("freshrssNoToken"),
            SyncError::Outside => None,
            SyncError::Unexpected => None,
        }
    }
}

impl EventView {
    /// The event reports a failure.
    pub open spec fn is_failure(self) -> bool {
        self is Unreachable || self is Refused || self is Failed
    }

    /// The error of an operation that this event ends.
    pub open spec fn fault(self) -> SyncError {
        if self.is_failure() {
            SyncError::Outside
        } else {
            SyncError::Unexpected
        }
    }
}

impl Event {
    /// Decides whether the event reports a failure.
    pub fn is_failure(&self) -> (r: bool)
        ensures
            r == self.deep_view().is_failure(),
    {
        match self {
            Event::Unreachable => true,
            Event::Refused(_) => true,
            Event::Failed => true,
            _ => false,
        }
    }

    /// The error of an operation that this event ends.
    pub fn fault(&self) -> (r: SyncError)
        ensures
            r == self.deep_view().fault(),
    {
        if self.is_failure() {
            SyncError::Outside
        } else {
            SyncError::Unexpected
        }
    }
}

/// The codes by which a caller tells the errors of a connection apart.
pub proof fn law_error_codes(error: SyncError)
    ensures
        error is NotConnected ==> error.code_of() == Some("freshrssNotConnected"@),
        error is LoginFailed ==> error.code_of() == Some("freshrssLoginFailed"@),
        error is NoToken ==> error.code_of() == Some("freshrssNoToken"@),
        error is Outside || error is Unexpected ==> error.code_of() is None,
{
}

/// An operation that the world outside failed ends as such; an answer to another
/// question is unexpected.
pub proof fn law_faults(event: EventView)
    ensures
        event.is_failure() <==> event is Unreachable || event is Refused || event is Failed,
        event.fault() == if event is Unreachable || event is Refused || event is Failed {
            SyncError::Outside
        } else {
            SyncError::Unexpected
        },
{
}

}
