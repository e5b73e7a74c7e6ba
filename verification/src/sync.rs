//! The full synchronisation: local changes are pushed, the subscription lists
//! are aligned, the server's articles are pulled and their state is applied, and
//! local changes that became sendable are pushed in a second pass.
use vstd::prelude::*;

use crate::data::{copy_texts, FeedTargetView, ItemView, SubView, SyncEntryView};
use crate::feeds::{
    law_no_subscription_skipped, lemma_feed_pass_left, lemma_feed_pass_start, lemma_feed_pass_wf,
    listed_urls, server_urls, FeedIndex, FeedPass, FeedPassView, FeedPush, FeedPushView,
    FeedStage,
};
use crate::folders::{FolderPull, FolderPullView};
use crate::greader::{auth_headers, Session, SessionView};
use crate::http::RequestView;
use crate::opening::{Opening, OpeningView};
use crate::provider::Provider;
use crate::pull::{
    pull_remote_items, server_state_sets, Pull, PullView, StatePull, StatePullView,
};
use crate::queue::{PushPass, PushPassView};
use crate::reconcile::{
    article_of, law_no_item_skipped, law_pending_change_kept, lemma_article_step, lemma_begin_from,
    lemma_item_pass_left, lemma_item_pass_start, lemma_item_pass_wf, searches, ItemPass,
    ItemPassView, ItemStage, ItemStageView,
};
use crate::settings::{creds, creds_in, CredsView, SettingsView};
use crate::world::{Action, ActionView, Event, EventView, SyncError};

verus! {

/// What a synchronisation did.
#[derive(Clone, Copy, Debug, PartialEq, Eq, Structural)]
pub struct Report {
    /// Local changes that were pushed before the pull.
    pub pushed_before: usize,
    /// Pulled articles that the server's state was applied to, each counted once.
    pub applied: usize,
    /// Unread articles that were imported.
    pub inserted: usize,
    /// Further articles that the sweep aligned.
    pub tail: usize,
    /// Local changes that were pushed after the pull.
    pub pushed_after: usize,
}

impl Report {
    /// Before anything was done.
    pub open spec fn nothing() -> Report {
        Report { pushed_before: 0, applied: 0, inserted: 0, tail: 0, pushed_after: 0 }
    }

    /// How many articles the server's state was applied to, item by item or by the
    /// sweep, if the number can be represented.
    pub fn reconciled(self) -> (r: Option<usize>)
        ensures
            r == if self.applied + self.tail <= usize::MAX {
                Some((self.applied + self.tail) as usize)
            } else {
                None
            },
    {
        self.applied.checked_add(self.tail)
    }
}

/// Where a synchronisation stands once its session is open.
pub enum Stage {
    PushingBefore(PushPass),
    Folders(FolderPull),
    Listing,
    Feeds(FeedPass),
    ListingFeeds { feeds: FeedIndex },
    PushingFeeds { feeds: FeedIndex, push: FeedPush },
    Pulling { feeds: FeedIndex, pull: Pull },
    Items(ItemPass),
    States(StatePull),
    Tail { unread_urls: Vec<String>, starred_urls: Vec<String> },
    PushingAfter(PushPass),
}

#[verifier::ext_equal]
pub enum StageView {
    PushingBefore(PushPassView),
    Folders(FolderPullView),
    Listing,
    Feeds(FeedPassView),
    ListingFeeds { feeds: Map<Seq<char>, i64> },
    PushingFeeds { feeds: Map<Seq<char>, i64>, push: FeedPushView },
    Pulling { feeds: Map<Seq<char>, i64>, pull: PullView },
    Items(ItemPassView),
    States(StatePullView),
    Tail { unread_urls: Seq<Seq<char>>, starred_urls: Seq<Seq<char>> },
    PushingAfter(PushPassView),
}

impl DeepView for Stage {
    type V = StageView;

    open spec fn deep_view(&self) -> StageView {
        match self {
            Stage::PushingBefore(pass) => StageView::PushingBefore(pass.deep_view()),
            Stage::Folders(pull) => StageView::Folders(pull.deep_view()),
            Stage::Listing => StageView::Listing,
            Stage::Feeds(pass) => StageView::Feeds(pass.deep_view()),
            Stage::ListingFeeds { feeds } => StageView::ListingFeeds { feeds: feeds@ },
            Stage::PushingFeeds { feeds, push } => StageView::PushingFeeds {
                feeds: feeds@,
                push: push.deep_view(),
            },
            Stage::Pulling { feeds, pull } => StageView::Pulling {
                feeds: feeds@,
                pull: pull.deep_view(),
            },
            Stage::Items(pass) => StageView::Items(pass.deep_view()),
            Stage::States(pull) => StageView::States(pull.deep_view()),
            Stage::Tail { unread_urls, starred_urls } => StageView::Tail {
                unread_urls: unread_urls.deep_view(),
                starred_urls: starred_urls.deep_view(),
            },
            Stage::PushingAfter(pass) => StageView::PushingAfter(pass.deep_view()),
        }
    }
}

/// A synchronisation with an open session.
pub struct Work {
    pub provider: Provider,
    pub session: Session,
    /// The feeds that the server lists.
    pub server_urls: Vec<String>,
    pub report: Report,
    pub stage: Stage,
}

#[verifier::ext_equal]
pub struct WorkView {
    pub provider: Provider,
    pub session: SessionView,
    pub server_urls: Seq<Seq<char>>,
    pub report: Report,
    pub stage: StageView,
}

impl DeepView for Work {
    type V = WorkView;

    open spec fn deep_view(&self) -> WorkView {
        WorkView {
            provider: self.provider,
            session: self.session.deep_view(),
            server_urls: self.server_urls.deep_view(),
            report: self.report,
            stage: self.stage.deep_view(),
        }
    }
}

/// A synchronisation. It ends with a report, or with none where it only runs if
/// a server is connected and none is.
pub enum SyncRun {
    /// Looking whether a server is connected.
    Probing,
    Opening(Opening),
    Working(Work),
    Done(Result<Option<Report>, SyncError>),
}

#[verifier::ext_equal]
pub enum SyncRunView {
    Probing,
    Opening(OpeningView),
    Working(WorkView),
    Done(Result<Option<Report>, SyncError>),
}

impl DeepView for SyncRun {
    type V = SyncRunView;

    open spec fn deep_view(&self) -> SyncRunView {
        match self {
            SyncRun::Probing => SyncRunView::Probing,
            SyncRun::Opening(opening) => SyncRunView::Opening(opening.deep_view()),
            SyncRun::Working(work) => SyncRunView::Working(work.deep_view()),
            SyncRun::Done(result) => SyncRunView::Done(*result),
        }
    }
}

impl WorkView {
    /// The state before the first event.
    pub open spec fn start(provider: Provider, session: SessionView) -> WorkView {
        WorkView {
            provider,
            session,
            server_urls: Seq::empty(),
            report: Report::nothing(),
            stage: StageView::PushingBefore(PushPassView::Taking),
        }
    }

    /// The same in another stage.
    pub open spec fn in_stage(self, stage: StageView) -> SyncRunView {
        SyncRunView::Working(WorkView { stage, ..self })
    }

    /// The next action, if there is one.
    pub open spec fn action(self) -> Option<ActionView> {
        match self.stage {
            StageView::PushingBefore(pass) => pass.action(self.session),
            StageView::Folders(pull) => pull.action(),
            StageView::Listing => Some(ActionView::Call(self.session.list_call())),
            StageView::Feeds(pass) => pass.action(),
            StageView::ListingFeeds { feeds } => Some(ActionView::ListFeeds),
            StageView::PushingFeeds { feeds, push } => push.action(self.session),
            StageView::Pulling { feeds, pull } => pull.action(self.session),
            StageView::Items(pass) => pass.action(),
            StageView::States(pull) => pull.action(self.session),
            StageView::Tail { unread_urls, starred_urls } => Some(
                ActionView::ReconcileTail { feeds: self.server_urls, unread_urls, starred_urls },
            ),
            StageView::PushingAfter(pass) => pass.action(self.session),
        }
    }

    /// With the subscriptions listed.
    pub open spec fn listed(self, subs: Seq<SubView>) -> SyncRunView {
        (WorkView { server_urls: listed_urls(subs), ..self }).at_feeds(FeedPassView::start(subs))
    }

    /// With the feed pass at this point.
    pub open spec fn at_feeds(self, pass: FeedPassView) -> SyncRunView {
        match pass.stage {
            FeedStage::Finished => self.in_stage(StageView::ListingFeeds { feeds: pass.feeds }),
            FeedStage::Broken(error) => SyncRunView::Done(Err(error)),
            _ => self.in_stage(StageView::Feeds(pass)),
        }
    }

    /// With the push of feeds at this point.
    pub open spec fn at_push(self, feeds: Map<Seq<char>, i64>, push: FeedPushView) -> SyncRunView {
        if push.next < push.missing.len() {
            self.in_stage(StageView::PushingFeeds { feeds, push })
        } else {
            self.in_stage(StageView::Pulling { feeds, pull: PullView::start(self.provider) })
        }
    }

    /// With the pull at this point.
    pub open spec fn at_pull(self, feeds: Map<Seq<char>, i64>, pull: PullView) -> SyncRunView {
        match pull {
            PullView::Done(items) => self.at_items(
                ItemPassView::start(self.provider, items, feeds),
            ),
            PullView::Broken(error) => SyncRunView::Done(Err(error)),
            _ => self.in_stage(StageView::Pulling { feeds, pull }),
        }
    }

    /// With the item pass at this point.
    pub open spec fn at_items(self, pass: ItemPassView) -> SyncRunView {
        match pass.stage {
            ItemStageView::Finished => (WorkView {
                report: Report {
                    applied: pass.applied.len() as usize,
                    inserted: pass.inserted.len() as usize,
                    ..self.report
                },
                ..self
            }).in_stage(StageView::States(StatePullView::start(self.provider))),
            ItemStageView::Broken(error) => SyncRunView::Done(Err(error)),
            _ => self.in_stage(StageView::Items(pass)),
        }
    }

    /// What follows in the stage at hand. A failure to bring the folders over, or
    /// to learn what is unread and starred, does not end the synchronisation.
    pub open spec fn accept(self, event: EventView) -> SyncRunView {
        match self.stage {
            StageView::PushingBefore(pass) => match pass.accept(event) {
                PushPassView::Done { pushed, failed } => (WorkView {
                    report: Report { pushed_before: pushed.len() as usize, ..self.report },
                    ..self
                }).in_stage(StageView::Folders(FolderPullView::Reading)),
                PushPassView::Broken(error) => SyncRunView::Done(Err(error)),
                pass => self.in_stage(StageView::PushingBefore(pass)),
            },
            StageView::Folders(pull) => match pull.accept(event) {
                FolderPullView::Done(_) => self.in_stage(StageView::Listing),
                pull => self.in_stage(StageView::Folders(pull)),
            },
            StageView::Listing => match event {
                EventView::Subscriptions(subs) => self.listed(subs),
                _ => SyncRunView::Done(Err(event.fault())),
            },
            StageView::Feeds(pass) => self.at_feeds(pass.accept(event)),
            StageView::ListingFeeds { feeds } => match event {
                EventView::Feeds(targets) => self.at_push(
                    feeds,
                    FeedPushView::start(targets, self.server_urls),
                ),
                _ => SyncRunView::Done(Err(event.fault())),
            },
            StageView::PushingFeeds { feeds, push } => self.at_push(feeds, push.accept(event)),
            StageView::Pulling { feeds, pull } => self.at_pull(feeds, pull.accept(event)),
            StageView::Items(pass) => self.at_items(pass.accept(event)),
            StageView::States(pull) => match pull.accept(event) {
                StatePullView::Done { unread_urls, starred_urls } => self.in_stage(
                    StageView::Tail { unread_urls, starred_urls },
                ),
                StatePullView::Broken(_) => self.in_stage(
                    StageView::PushingAfter(PushPassView::Taking),
                ),
                pull => self.in_stage(StageView::States(pull)),
            },
            StageView::Tail { unread_urls, starred_urls } => match event {
                EventView::Tail(tail) => (WorkView {
                    report: Report { tail, ..self.report },
                    ..self
                }).in_stage(StageView::PushingAfter(PushPassView::Taking)),
                _ => SyncRunView::Done(Err(event.fault())),
            },
            StageView::PushingAfter(pass) => match pass.accept(event) {
                PushPassView::Done { pushed, failed } => SyncRunView::Done(
                    Ok(Some(Report { pushed_after: pushed.len() as usize, ..self.report })),
                ),
                PushPassView::Broken(error) => SyncRunView::Done(Err(error)),
                pass => self.in_stage(StageView::PushingAfter(pass)),
            },
        }
    }
}

impl SyncRunView {
    /// The next action, if there is one.
    pub open spec fn action(self) -> Option<ActionView> {
        match self {
            SyncRunView::Probing => Some(ActionView::ReadSettings),
            SyncRunView::Opening(opening) => opening.action(),
            SyncRunView::Working(work) => work.action(),
            SyncRunView::Done(_) => None,
        }
    }

    /// The state after an event.
    pub open spec fn accept(self, event: EventView) -> SyncRunView {
        match self {
            SyncRunView::Probing => match event {
                EventView::Settings(s) => if creds_in(s) is Some {
                    SyncRunView::Opening(OpeningView::Reading)
                } else {
                    SyncRunView::Done(Ok(None))
                },
                _ => SyncRunView::Done(Err(event.fault())),
            },
            SyncRunView::Opening(opening) => match opening.accept(event) {
                OpeningView::Ready { creds, session } => SyncRunView::Working(
                    WorkView::start(creds.provider, session),
                ),
                OpeningView::Closed => SyncRunView::Done(Err(SyncError::NotConnected)),
                OpeningView::Broken(error) => SyncRunView::Done(Err(error)),
                opening => SyncRunView::Opening(opening),
            },
            SyncRunView::Working(work) => work.accept(event),
            SyncRunView::Done(_) => self,
        }
    }
}

/// Starts a synchronisation, which needs a connected server.
pub fn sync_now() -> (r: SyncRun)
    ensures
        r.deep_view() == SyncRunView::Opening(OpeningView::Reading),
{
    SyncRun::Opening(Opening::Reading)
}

/// Starts a synchronisation that does nothing where no server is connected.
pub fn run_if_connected() -> (r: SyncRun)
    ensures
        r.deep_view() == SyncRunView::Probing,
{
    SyncRun::Probing
}

impl Work {
    fn start(provider: Provider, session: Session) -> (r: Self)
        ensures
            r.deep_view() == WorkView::start(provider, session.deep_view()),
    {
        Work {
            provider,
            session,
            server_urls: Vec::new(),
            report: Report { pushed_before: 0, applied: 0, inserted: 0, tail: 0, pushed_after: 0 },
            stage: Stage::PushingBefore(PushPass::Taking),
        }
    }

    /// The next action.
    pub fn action(&self) -> (r: Option<Action>)
        ensures
            r.deep_view() == self.deep_view().action(),
    {
        match &self.stage {
            Stage::PushingBefore(pass) => pass.action(&self.session),
            Stage::Folders(pull) => pull.action(),
            Stage::Listing => Some(Action::Call(self.session.list_subscriptions())),
            Stage::Feeds(pass) => pass.action(),
            Stage::ListingFeeds { feeds } => Some(Action::ListFeeds),
            Stage::PushingFeeds { feeds, push } => push.action(&self.session),
            Stage::Pulling { feeds, pull } => pull.action(&self.session),
            Stage::Items(pass) => pass.action(),
            Stage::States(pull) => pull.action(&self.session),
            Stage::Tail { unread_urls, starred_urls } => Some(
                Action::ReconcileTail {
                    feeds: copy_texts(&self.server_urls),
                    unread_urls: copy_texts(unread_urls),
                    starred_urls: copy_texts(starred_urls),
                },
            ),
            Stage::PushingAfter(pass) => pass.action(&self.session),
        }
    }

    fn in_stage(self, stage: Stage) -> (r: SyncRun)
        ensures
            r.deep_view() == self.deep_view().in_stage(stage.deep_view()),
    {
        SyncRun::Working(
            Work {
                provider: self.provider,
                session: self.session,
                server_urls: self.server_urls,
                report: self.report,
                stage,
            },
        )
    }

    fn at_feeds(self, pass: FeedPass) -> (r: SyncRun)
        ensures
            r.deep_view() == self.deep_view().at_feeds(pass.deep_view()),
    {
        match pass.stage {
            FeedStage::Finished => self.in_stage(Stage::ListingFeeds { feeds: pass.feeds }),
            FeedStage::Broken(error) => SyncRun::Done(Err(error)),
            _ => self.in_stage(Stage::Feeds(pass)),
        }
    }

    fn at_push(self, feeds: FeedIndex, push: FeedPush) -> (r: SyncRun)
        ensures
            r.deep_view() == self.deep_view().at_push(feeds@, push.deep_view()),
    {
        if push.next < push.missing.len() {
            self.in_stage(Stage::PushingFeeds { feeds, push })
        } else {
            let pull = pull_remote_items(self.provider);
            self.in_stage(Stage::Pulling { feeds, pull })
        }
    }

    fn at_pull(self, feeds: FeedIndex, pull: Pull) -> (r: SyncRun)
        ensures
            r.deep_view() == self.deep_view().at_pull(feeds@, pull.deep_view()),
    {
        match pull {
            Pull::Done(items) => {
                let pass = ItemPass::new(self.provider, items, feeds);
                self.at_items(pass)
            },
            Pull::Broken(error) => SyncRun::Done(Err(error)),
            pull => self.in_stage(Stage::Pulling { feeds, pull }),
        }
    }

    fn at_items(self, pass: ItemPass) -> (r: SyncRun)
        ensures
            r.deep_view() == self.deep_view().at_items(pass.deep_view()),
    {
        match &pass.stage {
            ItemStage::Finished => {
                let mut work = self;
                work.report.applied = pass.applied.len();
                work.report.inserted = pass.inserted.len();
                let pull = server_state_sets(work.provider);
                work.in_stage(Stage::States(pull))
            },
            ItemStage::Broken(error) => SyncRun::Done(Err(*error)),
            _ => self.in_stage(Stage::Items(pass)),
        }
    }

    /// Takes in how the last action ended.
    pub fn accept(self, event: Event) -> (r: SyncRun)
        ensures
            r.deep_view() == self.deep_view().accept(event.deep_view()),
    {
        let mut work = self;
        let mut stage = Stage::Listing;
        std::mem::swap(&mut stage, &mut work.stage);
        match stage {
            Stage::PushingBefore(pass) => match pass.accept(event) {
                PushPass::Done { pushed, failed } => {
                    work.report.pushed_before = pushed.len();
                    work.in_stage(Stage::Folders(FolderPull::Reading))
                },
                PushPass::Broken(error) => SyncRun::Done(Err(error)),
                pass => work.in_stage(Stage::PushingBefore(pass)),
            },
            Stage::Folders(pull) => match pull.accept(event) {
                FolderPull::Done(_) => work.in_stage(Stage::Listing),
                pull => work.in_stage(Stage::Folders(pull)),
            },
            Stage::Listing => match event {
                Event::Subscriptions(subs) => {
                    work.server_urls = server_urls(&subs);
                    work.at_feeds(FeedPass::new(subs))
                },
                _ => SyncRun::Done(Err(event.fault())),
            },
            Stage::Feeds(pass) => work.at_feeds(pass.accept(event)),
            Stage::ListingFeeds { feeds } => match event {
                Event::Feeds(targets) => {
                    let server = work.server_urls.as_slice();
                    assert(server.deep_view() =~= work.server_urls.deep_view());
                    let push = FeedPush::new(targets, server);
                    work.at_push(feeds, push)
                },
                _ => SyncRun::Done(Err(event.fault())),
            },
            Stage::PushingFeeds { feeds, push } => work.at_push(feeds, push.accept(event)),
            Stage::Pulling { feeds, pull } => work.at_pull(feeds, pull.accept(event)),
            Stage::Items(pass) => work.at_items(pass.accept(event)),
            Stage::States(pull) => match pull.accept(event) {
                StatePull::Done { unread_urls, starred_urls } => work.in_stage(
                    Stage::Tail { unread_urls, starred_urls },
                ),
                StatePull::Broken(_) => work.in_stage(Stage::PushingAfter(PushPass::Taking)),
                pull => work.in_stage(Stage::States(pull)),
            },
            Stage::Tail { unread_urls, starred_urls } => match event {
                Event::Tail(tail) => {
                    work.report.tail = tail;
                    work.in_stage(Stage::PushingAfter(PushPass::Taking))
                },
                _ => SyncRun::Done(Err(event.fault())),
            },
            Stage::PushingAfter(pass) => match pass.accept(event) {
                PushPass::Done { pushed, failed } => {
                    work.report.pushed_after = pushed.len();
                    SyncRun::Done(Ok(Some(work.report)))
                },
                PushPass::Broken(error) => SyncRun::Done(Err(error)),
                pass => work.in_stage(Stage::PushingAfter(pass)),
            },
        }
    }
}

impl SyncRun {
    /// The next action, if the synchronisation is not over.
    pub fn action(&self) -> (r: Option<Action>)
        ensures
            r.deep_view() == self.deep_view().action(),
    {
        match self {
            SyncRun::Probing => Some(Action::ReadSettings),
            SyncRun::Opening(opening) => opening.action(),
            SyncRun::Working(work) => work.action(),
            SyncRun::Done(_) => None,
        }
    }

    /// Takes in how the last action ended.
    pub fn accept(self, event: Event) -> (r: Self)
        ensures
            r.deep_view() == self.deep_view().accept(event.deep_view()),
    {
        match self {
            SyncRun::Probing => match event {
                Event::Settings(s) => {
                    if creds(&s).is_some() {
                        SyncRun::Opening(Opening::Reading)
                    } else {
                        SyncRun::Done(Ok(None))
                    }
                },
                _ => SyncRun::Done(Err(event.fault())),
            },
            SyncRun::Opening(opening) => match opening.accept(event) {
                Opening::Ready { creds, session } => SyncRun::Working(
                    Work::start(creds.provider, session),
                ),
                Opening::Closed => SyncRun::Done(Err(SyncError::NotConnected)),
                Opening::Broken(error) => SyncRun::Done(Err(error)),
                opening => SyncRun::Opening(opening),
            },
            SyncRun::Working(work) => work.accept(event),
            SyncRun::Done(result) => SyncRun::Done(result),
        }
    }
}

impl WorkView {
    /// What holds of the work at every step: the part at hand has not ended, and
    /// the report holds nothing yet of the parts that are still to come.
    pub open spec fn wf(self) -> bool {
        &&& self.report.pushed_after == 0
        &&& match self.stage {
            StageView::PushingBefore(pass) => pass.wf() && !(pass is Done) && !(pass is Broken)
                && self.report == Report::nothing(),
            StageView::Folders(pull) => pull.wf() && !(pull is Done),
            StageView::Feeds(pass) => pass.wf() && !(pass.stage is Finished) && !(
            pass.stage is Broken),
            StageView::PushingFeeds { feeds, push } => push.next < push.missing.len(),
            StageView::Pulling { feeds, pull } => pull.wf() && !(pull is Done) && !(
            pull is Broken),
            StageView::Items(pass) => pass.wf() && pass.running() && pass.provider
                == self.provider,
            StageView::States(pull) => pull.wf() && !(pull is Done) && !(pull is Broken),
            StageView::PushingAfter(pass) => pass.wf() && !(pass is Done) && !(pass is Broken),
            _ => true,
        }
        &&& !(self.stage is States || self.stage is Tail || self.stage is PushingAfter)
            ==> self.report.applied == 0 && self.report.inserted == 0
        &&& !(self.stage is PushingAfter) ==> self.report.tail == 0
    }

    /// The number of the part at hand, counted from the last.
    pub open spec fn parts_left(self) -> nat {
        match self.stage {
            StageView::PushingBefore(_) => 11,
            StageView::Folders(_) => 10,
            StageView::Listing => 9,
            StageView::Feeds(_) => 8,
            StageView::ListingFeeds { feeds } => 7,
            StageView::PushingFeeds { feeds, push } => 6,
            StageView::Pulling { feeds, pull } => 5,
            StageView::Items(_) => 4,
            StageView::States(_) => 3,
            StageView::Tail { unread_urls, starred_urls } => 2,
            StageView::PushingAfter(_) => 1,
        }
    }

    /// How far the part at hand is from its end.
    pub open spec fn left(self) -> (nat, nat) {
        match self.stage {
            StageView::PushingBefore(pass) => pass.left(),
            StageView::Folders(pull) => pull.left(),
            StageView::Feeds(pass) => pass.left(),
            StageView::PushingFeeds { feeds, push } => (
                (push.missing.len() - push.next) as nat,
                if push.folder is None {
                    1
                } else {
                    0
                },
            ),
            StageView::Pulling { feeds, pull } => pull.left(),
            StageView::Items(pass) => pass.left(),
            StageView::States(pull) => pull.left(),
            StageView::PushingAfter(pass) => pass.left(),
            _ => (0, 0),
        }
    }
}

impl SyncRunView {
    /// The state after the events.
    pub open spec fn run(self, events: Seq<EventView>) -> SyncRunView
        decreases events.len(),
    {
        if events.len() == 0 {
            self
        } else {
            self.run(events.drop_last()).accept(events.last())
        }
    }

    /// One of the two ways to start.
    pub open spec fn is_start(self) -> bool {
        self == SyncRunView::Probing || self == SyncRunView::Opening(OpeningView::Reading)
    }

    /// What holds of the synchronisation at every step.
    pub open spec fn wf(self) -> bool {
        match self {
            SyncRunView::Opening(opening) => !(opening is Closed) && !(opening is Ready) && !(
            opening is Broken),
            SyncRunView::Working(work) => work.wf(),
            _ => true,
        }
    }

    /// The number of the part at hand, counted from the last.
    pub open spec fn parts_left(self) -> nat {
        match self {
            SyncRunView::Probing => 13,
            SyncRunView::Opening(_) => 12,
            SyncRunView::Working(work) => work.parts_left(),
            SyncRunView::Done(_) => 0,
        }
    }

    /// How far the part at hand is from its end.
    pub open spec fn left(self) -> (nat, nat) {
        match self {
            SyncRunView::Opening(OpeningView::Reading) => (3, 0),
            SyncRunView::Opening(OpeningView::LoggingIn { creds }) => (2, 0),
            SyncRunView::Opening(OpeningView::FetchingToken { creds, auth, fresh }) => (1, 0),
            SyncRunView::Working(work) => work.left(),
            _ => (0, 0),
        }
    }

    /// `self` is nearer to the end than `other`: in a later part, or further on in
    /// the same one.
    pub open spec fn nearer_than(self, other: SyncRunView) -> bool {
        let (a, b) = self.left();
        let (c, d) = other.left();
        ||| self.parts_left() < other.parts_left()
        ||| self.parts_left() == other.parts_left() && a < c
        ||| self.parts_left() == other.parts_left() && a == c && b < d
    }
}

/// What holds at the start holds after every event.
proof fn lemma_sync_wf(sync: SyncRunView, event: EventView)
    requires
        sync.wf(),
    ensures
        sync.accept(event).wf(),
{
    if let SyncRunView::Working(work) = sync {
        match work.stage {
            StageView::Listing => {
                if let EventView::Subscriptions(subs) = event {
                    lemma_feed_pass_start(subs);
                }
            },
            StageView::Feeds(pass) => {
                lemma_feed_pass_wf(pass, event);
            },
            StageView::Pulling { feeds, pull } => {
                if let PullView::Done(items) = pull.accept(event) {
                    lemma_item_pass_start(work.provider, items, feeds);
                }
            },
            StageView::Items(pass) => {
                lemma_item_pass_wf(pass, event);
            },
            _ => {},
        }
    }
}

proof fn lemma_run_wf(start: SyncRunView, events: Seq<EventView>)
    requires
        start.is_start(),
    ensures
        start.run(events).wf(),
    decreases events.len(),
{
    if events.len() > 0 {
        lemma_run_wf(start, events.drop_last());
        lemma_sync_wf(start.run(events.drop_last()), events.last());
    }
}

/// Whatever the server and the store answer, a synchronisation names a next
/// action until it has ended.
pub proof fn law_sync_never_stuck(start: SyncRunView, events: Seq<EventView>)
    requires
        start.is_start(),
    ensures
        start.run(events) is Done || start.run(events).action() is Some,
{
    lemma_run_wf(start, events);
}

/// Whatever the server and the store answer, every event brings a synchronisation
/// nearer to its end, so that it ends: no server can keep it going forever. Its
/// parts come one after the other, and none comes twice.
pub proof fn law_sync_progresses(
    start: SyncRunView,
    events: Seq<EventView>,
    event: EventView,
)
    requires
        start.is_start(),
        !(start.run(events) is Done),
    ensures
        start.run(events).accept(event).nearer_than(start.run(events)),
{
    lemma_run_wf(start, events);
    if let SyncRunView::Working(work) = start.run(events) {
        match work.stage {
            StageView::Feeds(pass) => {
                lemma_feed_pass_left(pass, event);
            },
            StageView::Items(pass) => {
                lemma_item_pass_left(pass, event);
            },
            _ => {},
        }
    }
}

impl SyncRunView {
    /// The articles that the server's state has been applied to, item by item, are
    /// these, as far as the state tells.
    pub open spec fn has_applied(self, articles: Set<i64>) -> bool {
        match self {
            SyncRunView::Working(work) => match work.stage {
                StageView::Items(pass) => pass.applied == articles,
                StageView::States(_) => work.report.applied == articles.len(),
                StageView::Tail { unread_urls, starred_urls } => work.report.applied
                    == articles.len(),
                StageView::PushingAfter(_) => work.report.applied == articles.len(),
                _ => articles == Set::<i64>::empty(),
            },
            SyncRunView::Done(Ok(Some(report))) => report.applied == articles.len(),
            SyncRunView::Done(Err(_)) => true,
            _ => articles == Set::<i64>::empty(),
        }
    }

    /// How many unread articles have been imported.
    pub open spec fn inserted(self) -> nat {
        match self {
            SyncRunView::Working(work) => match work.stage {
                StageView::Items(pass) => pass.inserted.len(),
                _ => work.report.inserted as nat,
            },
            SyncRunView::Done(Ok(Some(report))) => report.inserted as nat,
            _ => 0,
        }
    }

    /// How many local changes have been pushed.
    pub open spec fn pushed(self) -> nat {
        match self {
            SyncRunView::Working(work) => match work.stage {
                StageView::PushingBefore(pass) => pass.count(),
                StageView::PushingAfter(pass) => work.report.pushed_before as nat + pass.count(),
                _ => work.report.pushed_before as nat,
            },
            SyncRunView::Done(Ok(Some(report))) => report.pushed_before as nat
                + report.pushed_after as nat,
            _ => 0,
        }
    }

    /// How many articles the sweep over the remaining ones has aligned.
    pub open spec fn swept(self) -> nat {
        match self {
            SyncRunView::Working(work) => work.report.tail as nat,
            SyncRunView::Done(Ok(Some(report))) => report.tail as nat,
            _ => 0,
        }
    }

    /// The article that the event confirms as dealt with: the server's state is
    /// set, and what was queued for it is dropped.
    pub open spec fn confirms_article(self, event: EventView) -> Option<i64> {
        match self.action() {
            Some(ActionView::ClearQueue(article)) => if event is Stored {
                Some(article)
            } else {
                None
            },
            _ => None,
        }
    }

    /// The event confirms that an unread article is new to the store.
    pub open spec fn confirms_import(self, event: EventView) -> bool {
        &&& event == EventView::Imported(true)
        &&& self matches SyncRunView::Working(work) && work.stage matches StageView::Items(pass)
            && pass.stage is Storing && !pass.item().read()
    }

    /// The event confirms that the server has taken a local change.
    pub open spec fn confirms_push(self, event: EventView) -> bool {
        &&& event is Accepted
        &&& self matches SyncRunView::Working(work) && match work.stage {
            StageView::PushingBefore(pass) => pass is Sending,
            StageView::PushingAfter(pass) => pass is Sending,
            _ => false,
        }
    }

    /// What the event adds to the number of articles that the sweep has aligned.
    pub open spec fn sweeps(self, event: EventView) -> nat {
        match event {
            EventView::Tail(n) => if self.action() is Some && self.action()->0 is ReconcileTail {
                n as nat
            } else {
                0
            },
            _ => 0,
        }
    }

    /// The articles that the events confirm.
    pub open spec fn articles_confirmed(self, events: Seq<EventView>) -> Set<i64>
        decreases events.len(),
    {
        if events.len() == 0 {
            Set::empty()
        } else {
            let before = self.articles_confirmed(events.drop_last());
            match self.run(events.drop_last()).confirms_article(events.last()) {
                Some(article) => before.insert(article),
                None => before,
            }
        }
    }

    /// How many of the events confirm an import.
    pub open spec fn imports_confirmed(self, events: Seq<EventView>) -> nat
        decreases events.len(),
    {
        if events.len() == 0 {
            0
        } else {
            self.imports_confirmed(events.drop_last()) + if self.run(
                events.drop_last(),
            ).confirms_import(events.last()) {
                1nat
            } else {
                0
            }
        }
    }

    /// How many of the events confirm a push.
    pub open spec fn pushes_confirmed(self, events: Seq<EventView>) -> nat
        decreases events.len(),
    {
        if events.len() == 0 {
            0
        } else {
            self.pushes_confirmed(events.drop_last()) + if self.run(
                events.drop_last(),
            ).confirms_push(events.last()) {
                1nat
            } else {
                0
            }
        }
    }

    /// How many articles the events say that the sweep has aligned.
    pub open spec fn articles_swept(self, events: Seq<EventView>) -> nat
        decreases events.len(),
    {
        if events.len() == 0 {
            0
        } else {
            self.articles_swept(events.drop_last()) + self.run(events.drop_last()).sweeps(
                events.last(),
            )
        }
    }

    /// The synchronisation has failed.
    pub open spec fn failed(self) -> bool {
        self matches SyncRunView::Done(result) && result is Err
    }
}

proof fn lemma_counts_step(sync: SyncRunView, event: EventView)
    requires
        sync.wf(),
        sync.inserted() < usize::MAX,
        sync.pushed() < usize::MAX,
        !sync.accept(event).failed(),
    ensures
        sync.accept(event).inserted() == sync.inserted() + if sync.confirms_import(event) {
            1nat
        } else {
            0
        },
        sync.accept(event).pushed() == sync.pushed() + if sync.confirms_push(event) {
            1nat
        } else {
            0
        },
        sync.accept(event).swept() == sync.swept() + sync.sweeps(event),
{
}

proof fn lemma_applied_step(sync: SyncRunView, event: EventView, articles: Set<i64>)
    requires
        sync.wf(),
        articles.finite(),
        articles.len() < usize::MAX,
        sync.has_applied(articles),
    ensures
        sync.accept(event).has_applied(
            match sync.confirms_article(event) {
                Some(article) => articles.insert(article),
                None => articles,
            },
        ),
{
    if let SyncRunView::Working(work) = sync {
        match work.stage {
            StageView::Items(pass) => {
                lemma_item_pass_wf(pass, event);
            },
            StageView::Feeds(pass) => {
                lemma_feed_pass_wf(pass, event);
            },
            _ => {},
        }
    }
}

proof fn lemma_counts(start: SyncRunView, events: Seq<EventView>)
    requires
        start.is_start(),
        events.len() <= usize::MAX,
    ensures
        !start.run(events).failed() ==> {
            &&& start.run(events).inserted() == start.imports_confirmed(events)
            &&& start.run(events).pushed() == start.pushes_confirmed(events)
            &&& start.run(events).swept() == start.articles_swept(events)
        },
        start.run(events).has_applied(start.articles_confirmed(events)),
        start.articles_confirmed(events).finite(),
        start.articles_confirmed(events).len() <= events.len(),
        start.imports_confirmed(events) <= events.len(),
        start.pushes_confirmed(events) <= events.len(),
    decreases events.len(),
{
    if events.len() > 0 {
        lemma_counts(start, events.drop_last());
        lemma_run_wf(start, events.drop_last());
        let before = start.run(events.drop_last());
        lemma_applied_step(before, events.last(), start.articles_confirmed(events.drop_last()));
        if !start.run(events).failed() {
            assert(!before.failed());
            lemma_counts_step(before, events.last());
        }
    }
}

/// The report is true: it counts the pulled articles whose state was set, each of
/// them once however many pulled items stand for it, the unread ones that were
/// imported, the articles that the sweep aligned, and the local changes that the
/// server took.
pub proof fn law_report_counts(start: SyncRunView, events: Seq<EventView>, report: Report)
    requires
        start.is_start(),
        events.len() <= usize::MAX,
        start.run(events) == SyncRunView::Done(Ok(Some(report))),
    ensures
        report.applied == start.articles_confirmed(events).len(),
        report.inserted == start.imports_confirmed(events),
        report.tail == start.articles_swept(events),
        report.pushed_before + report.pushed_after == start.pushes_confirmed(events),
{
    lemma_counts(start, events);
}

/// In a whole synchronisation too, a local change that was not sent yet is never
/// overwritten by a pulled article's state.
pub proof fn law_sync_keeps_pending_change(
    sync: SyncRunView,
    event: EventView,
    article: i64,
    read: bool,
    starred: bool,
)
    requires
        sync.accept(event).action() == Some(ActionView::SetState { article, read, starred }),
    ensures
        sync.action() == Some(ActionView::AskPending(article)),
        event == EventView::Pending(false),
{
    if let SyncRunView::Working(work) = sync {
        match work.stage {
            StageView::Items(pass) => {
                law_pending_change_kept(pass, event, article, read, starred);
            },
            StageView::Pulling { feeds, pull } => {
                if let PullView::Done(items) = pull.accept(event) {
                    lemma_begin_from(work.provider, items, feeds, 0);
                }
            },
            _ => {},
        }
    }
}

/// A synchronisation succeeds only by way of the second push, which comes after
/// the pull.
pub proof fn law_success_after_second_push(sync: SyncRunView, event: EventView, report: Report)
    requires
        !(sync is Done),
        sync.accept(event) == SyncRunView::Done(Ok(Some(report))),
    ensures
        sync matches SyncRunView::Working(work) && work.stage is PushingAfter,
{
}

/// Neither a failure to bring the folders over nor a failure to learn what is
/// unread and starred ends a synchronisation.
pub proof fn law_side_failures_tolerated(work: WorkView, event: EventView)
    requires
        work.stage is Folders || work.stage is States,
    ensures
        work.accept(event) is Working,
        work.stage is States && event.is_failure() && work.wf() ==> work.accept(event)
            == work.in_stage(StageView::PushingAfter(PushPassView::Taking)),
        work.stage is Folders && event.is_failure() && work.wf() ==> work.accept(event)
            == work.in_stage(StageView::Listing),
{
}

/// Without a configured server, a synchronisation that needs one fails as not
/// connected, and one that runs only if connected ends at once; with one, the
/// latter goes on as the former.
pub proof fn law_connection_decides(s: SettingsView)
    ensures
        creds_in(s) is None ==> SyncRunView::Opening(OpeningView::Reading).accept(
            EventView::Settings(s),
        ) == SyncRunView::Done(Err(SyncError::NotConnected)),
        creds_in(s) is None ==> SyncRunView::Probing.accept(EventView::Settings(s))
            == SyncRunView::Done(Ok(None)),
        creds_in(s) is Some ==> SyncRunView::Probing.accept(EventView::Settings(s))
            == SyncRunView::Opening(OpeningView::Reading),
{
}

/// The sweep over the remaining articles is told exactly the feeds that the
/// server lists, and it comes only once the addresses that the server considers
/// unread and starred are known.
pub proof fn law_sweep_knows_states(
    work: WorkView,
    event: EventView,
    feeds: Seq<Seq<char>>,
    unread_urls: Seq<Seq<char>>,
    starred_urls: Seq<Seq<char>>,
)
    requires
        work.wf(),
        work.accept(event).action() == Some(
            ActionView::ReconcileTail { feeds, unread_urls, starred_urls },
        ),
    ensures
        feeds == work.server_urls,
        work.stage matches StageView::States(pull) && pull.accept(event) == (StatePullView::Done {
            unread_urls,
            starred_urls,
        }),
{
}

/// A synchronisation that needs a connected server never ends without a report or
/// an error.
pub proof fn law_sync_now_reports(events: Seq<EventView>)
    ensures
        SyncRunView::Opening(OpeningView::Reading).run(events) != SyncRunView::Done(Ok(None)),
        SyncRunView::Opening(OpeningView::Reading).run(events) != SyncRunView::Probing,
    decreases events.len(),
{
    if events.len() > 0 {
        law_sync_now_reports(events.drop_last());
    }
}

/// Every request of a synchronisation, other than to the native interface, carries
/// the session's authentication.
pub proof fn law_requests_authenticated(work: WorkView, request: RequestView)
    requires
        !(work.stage is Folders),
        work.action() == Some(ActionView::Call(request)),
    ensures
        request.headers == auth_headers(work.session.auth),
{
}

/// A synchronisation with FreshRSS matches items by address alone: whatever the
/// server and the store answer, it never looks for an article under the server's
/// id, and looks under a guid only to locate an article that it has just stored.
pub proof fn law_sync_matches_freshrss_by_url(
    start: SyncRunView,
    events: Seq<EventView>,
    work: WorkView,
)
    requires
        start.is_start(),
        start.run(events) == SyncRunView::Working(work),
        work.provider == Provider::FreshRss,
    ensures
        match work.action() {
            Some(ActionView::FindByRemoteId(_)) => false,
            Some(ActionView::FindByGuid { feed, guid }) => work.stage matches StageView::Items(
                pass,
            ) && pass.stage is Locating,
            _ => true,
        },
{
    lemma_run_wf(start, events);
}

impl SyncRunView {
    /// The articles that the store has found, when the events have come.
    pub open spec fn found_by(self, events: Seq<EventView>) -> Set<i64>
        decreases events.len(),
    {
        if events.len() == 0 {
            Set::empty()
        } else {
            let before = self.found_by(events.drop_last());
            let action = self.run(events.drop_last()).action();
            match events.last() {
                EventView::Article(Some(article)) => if action is Some && searches(action->0) {
                    before.insert(article)
                } else {
                    before
                },
                _ => before,
            }
        }
    }
}

proof fn lemma_sync_article_step(sync: SyncRunView, event: EventView, article: i64)
    requires
        sync.wf(),
        sync.accept(event).action() is Some,
        article_of(sync.accept(event).action()->0) == Some(article),
    ensures
        sync.action() is Some,
        article_of(sync.action()->0) == Some(article) || (searches(sync.action()->0) && event
            == EventView::Article(Some(article))),
{
    if let SyncRunView::Working(work) = sync {
        match work.stage {
            StageView::Items(pass) => {
                lemma_article_step(pass, event, article);
            },
            StageView::Pulling { feeds, pull } => {
                if let PullView::Done(items) = pull.accept(event) {
                    lemma_begin_from(work.provider, items, feeds, 0);
                }
            },
            _ => {},
        }
    }
}

proof fn lemma_sync_found(start: SyncRunView, events: Seq<EventView>, article: i64)
    requires
        start.is_start(),
        start.run(events).action() is Some,
        article_of(start.run(events).action()->0) == Some(article),
    ensures
        start.found_by(events).contains(article),
    decreases events.len(),
{
    if events.len() > 0 {
        let before = start.run(events.drop_last());
        lemma_run_wf(start, events.drop_last());
        lemma_sync_article_step(before, events.last(), article);
        if article_of(before.action()->0) == Some(article) {
            lemma_sync_found(start, events.drop_last(), article);
        }
    }
}

/// In a whole synchronisation no action on one article concerns an article that no
/// search has found, whatever the server and the store answer. (The sweep over the
/// feeds that the server lists is no action on one article.)
pub proof fn law_sync_leaves_unmentioned(
    start: SyncRunView,
    events: Seq<EventView>,
    article: i64,
)
    requires
        start.is_start(),
        !start.found_by(events).contains(article),
    ensures
        start.run(events).action() matches Some(action) ==> article_of(action) != Some(article),
{
    if let Some(action) = start.run(events).action() {
        if article_of(action) == Some(article) {
            lemma_sync_found(start, events, article);
        }
    }
}

/// A synchronisation begins, once its session is open, by taking the queue, with
/// the provider of the credentials and with nothing to report yet.
pub proof fn law_sync_begins(
    opening: OpeningView,
    event: EventView,
    creds: CredsView,
    session: SessionView,
)
    requires
        opening.accept(event) == (OpeningView::Ready { creds, session }),
    ensures
        SyncRunView::Probing.action() == Some(ActionView::ReadSettings),
        SyncRunView::Opening(opening).action() == opening.action(),
        SyncRunView::Opening(opening).accept(event) matches SyncRunView::Working(work) && {
            &&& work.provider == creds.provider
            &&& work.session == session
            &&& work.server_urls.len() == 0
            &&& work.report == (Report {
                pushed_before: 0,
                applied: 0,
                inserted: 0,
                tail: 0,
                pushed_after: 0,
            })
            &&& work.stage == StageView::PushingBefore(PushPassView::Taking)
            &&& work.action() == Some(ActionView::TakeQueue)
        },
{
}

/// After the first push, which is reported, come the folders, and after those,
/// whatever became of them, the list of subscriptions.
pub proof fn law_sync_pushes_first(
    work: WorkView,
    event: EventView,
    pushed: Seq<SyncEntryView>,
    failed: Seq<SyncEntryView>,
)
    requires
        pushed.len() <= usize::MAX,
    ensures
        work.stage matches StageView::PushingBefore(pass) ==> pass.accept(event) == (
        PushPassView::Done { pushed, failed }) ==> work.accept(event) == SyncRunView::Working(
            WorkView {
                report: Report { pushed_before: pushed.len() as usize, ..work.report },
                stage: StageView::Folders(FolderPullView::Reading),
                ..work
            },
        ),
        work.stage matches StageView::Folders(pull) ==> pull.accept(event) is Done
            ==> work.accept(event) == SyncRunView::Working(
            WorkView { stage: StageView::Listing, ..work },
        ),
        work.stage is Listing ==> work.action() == Some(
            ActionView::Call(work.session.list_call()),
        ),
{
}

/// The listed subscriptions go to the feed pass and their addresses are kept; when
/// that is done, the local feeds are listed; those that the server lacks are pushed;
/// and then the provider's articles are pulled.
pub proof fn law_sync_aligns_feeds(
    work: WorkView,
    subs: Seq<SubView>,
    event: EventView,
    targets: Seq<FeedTargetView>,
)
    ensures
        work.stage is Listing ==> ({
            let kept = WorkView { server_urls: listed_urls(subs), ..work };
            let pass = FeedPassView::start(subs);
            work.accept(EventView::Subscriptions(subs)) == SyncRunView::Working(
                WorkView {
                    stage: if pass.stage is Finished {
                        StageView::ListingFeeds { feeds: pass.feeds }
                    } else {
                        StageView::Feeds(pass)
                    },
                    ..kept
                },
            )
        }),
        work.stage matches StageView::Feeds(pass) ==> pass.accept(event).stage is Finished
            ==> work.accept(event) == SyncRunView::Working(
            WorkView { stage: StageView::ListingFeeds { feeds: pass.accept(event).feeds }, ..work },
        ),
        work.stage is ListingFeeds ==> work.action() == Some(ActionView::ListFeeds),
        work.stage matches StageView::ListingFeeds { feeds } ==> ({
            let push = FeedPushView::start(targets, work.server_urls);
            work.accept(EventView::Feeds(targets)) == SyncRunView::Working(
                WorkView {
                    stage: if push.missing.len() > 0 {
                        StageView::PushingFeeds { feeds, push }
                    } else {
                        StageView::Pulling { feeds, pull: PullView::start(work.provider) }
                    },
                    ..work
                },
            )
        }),
        work.stage matches StageView::PushingFeeds { feeds, push } ==> push.accept(event).next
            >= push.accept(event).missing.len() ==> work.accept(event) == SyncRunView::Working(
            WorkView {
                stage: StageView::Pulling { feeds, pull: PullView::start(work.provider) },
                ..work
            },
        ),
{
    lemma_feed_pass_start(subs);
    lemma_feed_start_unbroken(subs);
}

proof fn lemma_feed_start_unbroken(subs: Seq<SubView>)
    ensures
        !(FeedPassView::start(subs).stage is Broken),
{
    law_no_subscription_skipped(
        FeedPassView { subs, at: 0, stage: FeedStage::Finished, feeds: Map::empty() },
        0,
    );
}

/// The pulled items are applied with the streams that the feed pass bound; what was
/// applied and imported is reported, and then the states are asked for.
pub proof fn law_sync_applies_items(work: WorkView, event: EventView, items: Seq<ItemView>)
    ensures
        work.stage matches StageView::Pulling { feeds, pull } ==> pull.accept(event)
            == PullView::Done(items) ==> ({
            let pass = ItemPassView::start(work.provider, items, feeds);
            !(pass.stage is Finished) ==> work.accept(event) == SyncRunView::Working(
                WorkView { stage: StageView::Items(pass), ..work },
            )
        }),
        work.stage matches StageView::Items(pass) ==> pass.accept(event).stage is Finished
            && pass.accept(event).applied.len() <= usize::MAX
            && pass.accept(event).inserted.len() <= usize::MAX ==> work.accept(event) == SyncRunView::Working(
            WorkView {
                report: Report {
                    applied: pass.accept(event).applied.len() as usize,
                    inserted: pass.accept(event).inserted.len() as usize,
                    ..work.report
                },
                stage: StageView::States(StatePullView::start(work.provider)),
                ..work
            },
        ),
        work.stage matches StageView::Pulling { feeds, pull } ==> pull.accept(event)
            == PullView::Done(Seq::empty()) ==> work.accept(event) == SyncRunView::Working(
            WorkView {
                report: Report { applied: 0, inserted: 0, ..work.report },
                stage: StageView::States(StatePullView::start(work.provider)),
                ..work
            },
        ),
{
    if let StageView::Pulling { feeds, pull } = work.stage {
        lemma_item_pass_start(work.provider, items, feeds);
        lemma_begin_from(work.provider, items, feeds, 0);
        law_no_item_skipped(work.provider, items, feeds, 0);
        law_no_item_skipped(work.provider, Seq::empty(), feeds, 0);
    }
}

/// The sweep gets the feeds that the server lists and the two lists of addresses,
/// each in its place; what it aligned is reported, then comes the second push, and
/// with it the synchronisation ends.
pub proof fn law_sync_sweeps_and_ends(
    work: WorkView,
    event: EventView,
    unread_urls: Seq<Seq<char>>,
    starred_urls: Seq<Seq<char>>,
    tail: usize,
    pushed: Seq<SyncEntryView>,
    failed: Seq<SyncEntryView>,
)
    requires
        pushed.len() <= usize::MAX,
    ensures
        work.stage matches StageView::States(pull) ==> pull.accept(event) == (
        StatePullView::Done { unread_urls, starred_urls }) ==> ({
            let sweeping = WorkView {
                stage: StageView::Tail { unread_urls, starred_urls },
                ..work
            };
            &&& work.accept(event) == SyncRunView::Working(sweeping)
            &&& sweeping.action() == Some(
                ActionView::ReconcileTail {
                    feeds: work.server_urls,
                    unread_urls,
                    starred_urls,
                },
            )
        }),
        work.stage is Tail ==> work.accept(EventView::Tail(tail)) == SyncRunView::Working(
            WorkView {
                report: Report { tail, ..work.report },
                stage: StageView::PushingAfter(PushPassView::Taking),
                ..work
            },
        ),
        work.stage matches StageView::PushingAfter(pass) ==> pass.accept(event) == (
        PushPassView::Done { pushed, failed }) ==> work.accept(event) == SyncRunView::Done(
            Ok(Some(Report { pushed_after: pushed.len() as usize, ..work.report })),
        ),
{
}

/// A failure of the world outside ends a synchronisation as such while it pushes,
/// lists, aligns, pulls, applies or sweeps; only a change or a feed that could not
/// be sent, the folders and the states are let go.
pub proof fn law_sync_failures(work: WorkView, event: EventView)
    requires
        event is Unreachable || event is Refused || event is Failed,
        match work.stage {
            StageView::PushingBefore(pass) => pass is Taking,
            StageView::PushingAfter(pass) => pass is Taking,
            StageView::Listing | StageView::ListingFeeds { .. } | StageView::Tail { .. } => true,
            StageView::Feeds(pass) => pass.at < pass.subs.len() && !(pass.stage is Finished) && !(
            pass.stage is Broken),
            StageView::Pulling { feeds, pull } => !(pull is Done) && !(pull is Broken),
            StageView::Items(pass) => pass.at < pass.items.len() && !(pass.stage is Finished) && !(
            pass.stage is Broken),
            _ => false,
        },
    ensures
        work.accept(event) == SyncRunView::Done(Err(SyncError::Outside)),
{
}

/// In every part the synchronisation asks what the part asks, in the open session.
pub proof fn law_sync_asks_for_its_parts(work: WorkView)
    ensures
        work.stage matches StageView::PushingBefore(pass) ==> work.action() == pass.action(
            work.session,
        ),
        work.stage matches StageView::Folders(pull) ==> work.action() == pull.action(),
        work.stage matches StageView::Feeds(pass) ==> work.action() == pass.action(),
        work.stage matches StageView::PushingFeeds { feeds, push } ==> work.action()
            == push.action(work.session),
        work.stage matches StageView::Pulling { feeds, pull } ==> work.action() == pull.action(
            work.session,
        ),
        work.stage matches StageView::Items(pass) ==> work.action() == pass.action(),
        work.stage matches StageView::States(pull) ==> work.action() == pull.action(work.session),
        work.stage matches StageView::PushingAfter(pass) ==> work.action() == pass.action(
            work.session,
        ),
{
}

/// A part that is not over goes on with its own next state, in the same session and
/// with the same report.
pub proof fn law_sync_stays_in_its_part(work: WorkView, event: EventView)
    ensures
        work.stage matches StageView::PushingBefore(pass) ==> !(pass.accept(event) is Done) && !(
        pass.accept(event) is Broken) ==> work.accept(event) == SyncRunView::Working(
            WorkView { stage: StageView::PushingBefore(pass.accept(event)), ..work },
        ),
        work.stage matches StageView::Folders(pull) ==> !(pull.accept(event) is Done)
            ==> work.accept(event) == SyncRunView::Working(
            WorkView { stage: StageView::Folders(pull.accept(event)), ..work },
        ),
        work.stage matches StageView::Feeds(pass) ==> !(pass.accept(event).stage is Finished) && !(
        pass.accept(event).stage is Broken) ==> work.accept(event) == SyncRunView::Working(
            WorkView { stage: StageView::Feeds(pass.accept(event)), ..work },
        ),
        work.stage matches StageView::PushingFeeds { feeds, push } ==> push.accept(event).next
            < push.accept(event).missing.len() ==> work.accept(event) == SyncRunView::Working(
            WorkView {
                stage: StageView::PushingFeeds { feeds, push: push.accept(event) },
                ..work
            },
        ),
        work.stage matches StageView::Pulling { feeds, pull } ==> !(pull.accept(event) is Done)
            && !(pull.accept(event) is Broken) ==> work.accept(event) == SyncRunView::Working(
            WorkView { stage: StageView::Pulling { feeds, pull: pull.accept(event) }, ..work },
        ),
        work.stage matches StageView::Items(pass) ==> !(pass.accept(event).stage is Finished) && !(
        pass.accept(event).stage is Broken) ==> work.accept(event) == SyncRunView::Working(
            WorkView { stage: StageView::Items(pass.accept(event)), ..work },
        ),
        work.stage matches StageView::States(pull) ==> !(pull.accept(event) is Done) && !(
        pull.accept(event) is Broken) ==> work.accept(event) == SyncRunView::Working(
            WorkView { stage: StageView::States(pull.accept(event)), ..work },
        ),
        work.stage matches StageView::PushingAfter(pass) ==> !(pass.accept(event) is Done) && !(
        pass.accept(event) is Broken) ==> work.accept(event) == SyncRunView::Working(
            WorkView { stage: StageView::PushingAfter(pass.accept(event)), ..work },
        ),
{
}

/// A synchronisation whose session cannot be opened ends with the error of the
/// opening, and one that cannot learn whether a server is connected as failed by
/// the world outside.
pub proof fn law_sync_needs_session(opening: OpeningView, event: EventView, error: SyncError)
    ensures
        opening.accept(event) == OpeningView::Broken(error) ==> SyncRunView::Opening(
            opening,
        ).accept(event) == SyncRunView::Done(Err(error)),
        event is Unreachable || event is Refused || event is Failed
            ==> SyncRunView::Probing.accept(event) == SyncRunView::Done(Err(SyncError::Outside)),
{
}

/// An answer to another question ends a synchronisation as unexpected, where a
/// failure would have ended it.
pub proof fn law_unexpected_answers(work: WorkView, event: EventView)
    requires
        !(event is Unreachable) && !(event is Refused) && !(event is Failed),
    ensures
        work.stage is Listing && !(event is Subscriptions) ==> work.accept(event)
            == SyncRunView::Done(Err(SyncError::Unexpected)),
        work.stage is ListingFeeds && !(event is Feeds) ==> work.accept(event)
            == SyncRunView::Done(Err(SyncError::Unexpected)),
        work.stage is Tail && !(event is Tail) ==> work.accept(event) == SyncRunView::Done(
            Err(SyncError::Unexpected),
        ),
{
}

}
